use orcashell_ui::conflict_document::{
    conflict_block_navigation_disabled, delete_document_backward, delete_document_forward,
    indent_document_selection, navigated_conflict_block_index, outdent_document_selection,
    replace_document_range, ConflictEditorDocument, ParsedConflictBlock, ParsedConflictFile,
};
use orcashell_ui::conflict_highlight::{
    build_conflict_render_lines, build_conflict_render_lines_with_cache, CachedConflictLines,
    LineHighlighter,
};
use orcashell_ui::conflict_lines::{ConflictHighlightMode, ConflictRenderLine};
use orcashell_ui::diff_cache::{
    build_stash_line_cache, line_cache_matches, stash_line_cache_key, stash_line_cache_matches,
};
use orcashell_ui::diff_header::stash_header_button_label;
use orcashell_ui::diff_runs::{map_raw_to_display_ranges, normalize_display_ranges};
use orcashell_ui::diff_stash::stash_display_title;
use orcashell_ui::diff_state::{
    is_displayed_file_stale, is_oversize_document, DiffDocument, DiffFileState, DiffIndexState,
    DiffRenderSnapshot, DiffTabStashState, DiffTabState, DiffTabViewMode, FileDiffDocument,
    GitSnapshotSummary, GitTrackingStatus, MergeState, StashDetailState, StashFileDiffDocument,
    StashFileSelection, StashFileState, StashListState,
};
use orcashell_ui::diff_text::{
    extract_selected_text, plain_text_for_line, render_diff_text_string, selection_range_for_line,
    DiffPosition, DiffSelection,
};
use orcashell_ui::keys::{is_copy_keystroke, Modifiers};
use orcashell_ui::model::{
    ChangedFile, DiffLineKind, DiffLineView, DiffSectionKind, DiffSelectionKey, GitFileStatus,
    HighlightedSpan, RelativePath,
};
use orcashell_ui::prompt_dialog::PromptDialogConfirmTone;
use orcashell_ui::prompts::{create_stash_prompt_spec, discard_all_prompt_spec};
use orcashell_ui::repository_graph::Oid;
use orcashell_ui::text::ByteRange;
use orcashell_ui::theme::{diff_line_colors, OrcaTheme, ThemeId};
use orcashell_ui::time::format_relative_time_from;
use orcashell_ui::tree::{build_diff_tree, collect_file_keys, DiffTreeNodeKind};

const OVERSIZE_DIFF_MESSAGE: &str = "Diff too large to display";

fn file(path: &str, status: GitFileStatus) -> ChangedFile {
    ChangedFile {
        relative_path: RelativePath::parse(path),
        status,
        is_binary: false,
        insertions: 1,
        deletions: 0,
    }
}

fn diff_line(text: &str, kind: DiffLineKind) -> DiffLineView {
    DiffLineView {
        kind,
        old_lineno: None,
        new_lineno: None,
        text: text.to_string(),
        highlights: None,
        inline_changes: None,
    }
}

fn oid(value: u64) -> Oid {
    Oid { high: 0, low: value as u128 }
}

fn range(start: usize, end: usize) -> ByteRange {
    ByteRange { start, end }
}

fn at(line: usize, col: usize) -> DiffPosition {
    DiffPosition { line, col }
}

fn stash_selection(path: &str) -> StashFileSelection {
    StashFileSelection {
        stash_oid: oid(7),
        relative_path: RelativePath::parse(path),
    }
}

fn stash_file_document(path: &str, lines: Vec<DiffLineView>) -> StashFileDiffDocument {
    StashFileDiffDocument {
        stash_oid: oid(7),
        selection: stash_selection(path),
        file: file(path, GitFileStatus::Modified),
        lines,
    }
}

const COMMENT: u32 = 0x9499A8;
const STRING: u32 = 0x00AA00;
const CODE: u32 = 0xDDDDDD;

const IN_CODE: u64 = 0;
const IN_COMMENT: u64 = 1;
const IN_RAW_STRING: u64 = 2;

/// Colours a line of code, a block comment or a raw string, and says what the next line begins in.
fn highlight_step(checkpoint: u64, line: &str) -> (u64, Vec<HighlightedSpan>) {
    let mut state = checkpoint;
    let mut spans = Vec::new();
    let mut rest = line.trim_end_matches('\n');
    while !rest.is_empty() {
        let (color, ends, next) = match state {
            IN_COMMENT => (COMMENT, rest.find("*/").map(|at| at + 2), IN_CODE),
            IN_RAW_STRING => (STRING, rest.find("\"#").map(|at| at + 2), IN_CODE),
            _ => match (rest.find("/*"), rest.find("r#\"")) {
                (Some(comment), _) => (CODE, Some(comment), IN_COMMENT),
                (None, Some(raw)) => (CODE, Some(raw + 3), IN_RAW_STRING),
                (None, None) => (CODE, None, IN_CODE),
            },
        };
        let end = ends.unwrap_or(rest.len());
        if end > 0 {
            spans.push(HighlightedSpan {
                text: rest[..end].to_string(),
                color,
            });
        }
        if ends.is_some() {
            state = next;
        }
        rest = &rest[end..];
    }
    (state, spans)
}

fn highlight_alone(line: &str) -> Option<Vec<HighlightedSpan>> {
    Some(highlight_step(IN_CODE, line).1)
}

fn highlighter() -> LineHighlighter<
    impl Fn(u64, &str) -> (u64, Vec<HighlightedSpan>),
    impl Fn(&str) -> Option<Vec<HighlightedSpan>>,
> {
    LineHighlighter {
        initial: Some(IN_CODE),
        step: highlight_step,
        alone: highlight_alone,
    }
}

/// Finds the complete conflict blocks of a text.
fn parse_conflict_file_text(text: &str) -> Result<ParsedConflictFile, String> {
    let mut blocks = Vec::new();
    let mut has_base_sections = false;
    let mut offset = 0;
    let mut open: Option<(usize, usize)> = None;
    let mut base: Option<usize> = None;
    let mut split: Option<(usize, usize)> = None;
    for line in text.split_inclusive('\n') {
        let end = offset + line.len();
        if line.starts_with("<<<<<<<") {
            if open.is_some() {
                return Err("nested conflict block".to_string());
            }
            open = Some((offset, end));
        } else if line.starts_with("|||||||") && open.is_some() {
            base = Some(offset);
            has_base_sections = true;
        } else if line.starts_with("=======") && open.is_some() {
            split = Some((offset, end));
        } else if line.starts_with(">>>>>>>") {
            match (open, split) {
                (Some((start, ours)), Some((middle, theirs))) => {
                    blocks.push(ParsedConflictBlock {
                        block_index: blocks.len(),
                        whole_block: range(start, end),
                        ours: range(ours, base.unwrap_or(middle)),
                        base: base.map(|base| range(base, middle)),
                        theirs: range(theirs, offset),
                    });
                    open = None;
                    base = None;
                    split = None;
                }
                _ => return Err("unexpected end of a conflict block".to_string()),
            }
        }
        offset = end;
    }
    if open.is_some() {
        return Err("unfinished conflict block".to_string());
    }
    Ok(ParsedConflictFile {
        blocks,
        has_base_sections,
    })
}

fn conflict_key(path: &str) -> DiffSelectionKey {
    DiffSelectionKey {
        section: DiffSectionKind::Conflicted,
        relative_path: RelativePath::parse(path),
    }
}

fn document(text: &str, cursor_pos: usize, selection_range: Option<ByteRange>) -> ConflictEditorDocument {
    ConflictEditorDocument {
        generation: 1,
        version: 0,
        selection: conflict_key("conflict.rs"),
        file: file("conflict.rs", GitFileStatus::Conflicted),
        initial_raw_text: text.to_string(),
        raw_text: text.to_string(),
        blocks: Vec::new(),
        has_base_sections: false,
        parse_error: None,
        is_dirty: false,
        cursor_pos,
        selection_range,
        active_block_index: None,
    }
}

fn cache_for_conflict_text(text: &str, path: &str) -> CachedConflictLines {
    let (lines, anchors) = build_conflict_render_lines_with_cache(text, &highlighter(), None);
    CachedConflictLines {
        selection: conflict_key(path),
        generation: 1,
        version: 1,
        theme_id: ThemeId::Dark,
        raw_text: text.to_string(),
        lines,
        anchors,
        max_line_chars: 0,
    }
}

fn conflict_line_fingerprint(
    lines: &[ConflictRenderLine],
) -> Vec<(
    DiffLineKind,
    Option<Vec<(u32, String)>>,
    ConflictHighlightMode,
)> {
    lines
        .iter()
        .map(|line| {
            (
                line.kind,
                line.highlights.as_ref().map(|spans| {
                    spans
                        .iter()
                        .map(|span| (span.color, span.text.clone()))
                        .collect()
                }),
                line.highlight_mode,
            )
        })
        .collect()
}

fn snapshot(scope_root: &str, generation: u64) -> GitSnapshotSummary {
    GitSnapshotSummary {
        repo_root: scope_root.to_string(),
        scope_root: scope_root.to_string(),
        generation,
        content_fingerprint: generation,
        branch_name: "main".into(),
        remotes: vec!["origin".into()],
        is_worktree: false,
        worktree_name: None,
        changed_files: 1,
        insertions: 1,
        deletions: 0,
    }
}

fn no_stashes() -> DiffTabStashState {
    DiffTabStashState {
        list: StashListState {
            document: None,
            error: None,
            loading: false,
        },
        detail: StashDetailState {
            document: None,
            error: None,
            loading: false,
        },
        file_diff: StashFileState {
            document: None,
            error: None,
            loading: false,
        },
        selected_stash: None,
        expanded_stash: None,
        selected_file: None,
    }
}

fn diff_tab_with_document(
    scope_root: &str,
    generation: u64,
    document: DiffDocument,
    selected_file: Option<DiffSelectionKey>,
) -> DiffTabState {
    DiffTabState {
        scope_root: scope_root.to_string(),
        view_mode: DiffTabViewMode::WorkingTree,
        index: DiffIndexState {
            document: Some(document),
            error: None,
            loading: false,
            requested_generation: Some(generation),
        },
        selected_file,
        file: DiffFileState {
            document: None,
            error: None,
            loading: false,
        },
        stash: no_stashes(),
        conflict_documents: Vec::new(),
        multi_select: Vec::new(),
        commit_message: String::new(),
        local_action_in_flight: false,
        remote_op_in_flight: false,
        last_action_banner: None,
        remove_worktree_confirm: None,
        managed_worktree: None,
    }
}

#[test]
fn build_diff_tree_groups_directories_before_files() {
    let tree = build_diff_tree(&vec![
        file("src/lib.rs", GitFileStatus::Modified),
        file("src/app/mod.rs", GitFileStatus::Added),
        file("README.md", GitFileStatus::Modified),
    ]);

    assert_eq!(tree.len(), 2);
    assert!(matches!(tree[0].kind, DiffTreeNodeKind::Directory));
    assert!(matches!(tree[1].kind, DiffTreeNodeKind::File(_)));
    assert_eq!(tree[0].name, "src");
    assert_eq!(tree[1].name, "README.md");
}

#[test]
fn the_tree_is_the_same_for_every_order_of_files() {
    let paths = ["src/lib.rs", "src/app/mod.rs", "README.md", "a/b/c.rs"];
    let files = |order: [usize; 4]| {
        order
            .iter()
            .map(|index| file(paths[*index], GitFileStatus::Modified))
            .collect::<Vec<_>>()
    };
    let tree = build_diff_tree(&files([0, 1, 2, 3]));
    assert_eq!(build_diff_tree(&files([3, 2, 1, 0])), tree);
    assert_eq!(build_diff_tree(&files([2, 0, 3, 1])), tree);
    assert_eq!(tree[0].name, "a");
    assert_eq!(tree[0].children[0].name, "b");
    assert_eq!(tree[0].children[0].children[0].name, "c.rs");
    assert_eq!(tree[0].children[0].children[0].path.components.len(), 3);
}

#[test]
fn render_snapshot_counts_conflicts_and_uses_selected_conflict_meta() {
    let selected = conflict_key("src/conflict.rs");
    let tab = diff_tab_with_document(
        "/tmp/repo",
        7,
        DiffDocument {
            snapshot: snapshot("/tmp/repo", 7),
            tracking: GitTrackingStatus {
                upstream_ref: None,
                ahead: 0,
                behind: 0,
            },
            merge_state: Some(MergeState {
                can_complete: false,
                can_abort: true,
                conflicted_file_count: 1,
            }),
            repo_state_warning: None,
            conflicted_files: vec![file("src/conflict.rs", GitFileStatus::Conflicted)],
            staged_files: Vec::new(),
            unstaged_files: Vec::new(),
        },
        Some(selected.clone()),
    );

    let snapshot = DiffRenderSnapshot::from_tab(&tab, OVERSIZE_DIFF_MESSAGE);

    assert_eq!(snapshot.index_file_count, 1);
    assert_eq!(snapshot.conflicted_file_count, 1);
    assert_eq!(
        snapshot.file_meta.map(|file| file.relative_path),
        Some(selected.relative_path)
    );
}

#[test]
fn merge_state_keeps_staged_section_visible_but_hides_commit_input() {
    let tab = diff_tab_with_document(
        "/tmp/repo",
        7,
        DiffDocument {
            snapshot: snapshot("/tmp/repo", 7),
            tracking: GitTrackingStatus {
                upstream_ref: None,
                ahead: 0,
                behind: 0,
            },
            merge_state: Some(MergeState {
                can_complete: false,
                can_abort: true,
                conflicted_file_count: 1,
            }),
            repo_state_warning: None,
            conflicted_files: vec![file("src/conflict.rs", GitFileStatus::Conflicted)],
            staged_files: vec![file("src/resolved.rs", GitFileStatus::Modified)],
            unstaged_files: vec![file("README.md", GitFileStatus::Modified)],
        },
        None,
    );

    let snapshot = DiffRenderSnapshot::from_tab(&tab, OVERSIZE_DIFF_MESSAGE);

    assert_eq!(snapshot.conflicted_file_count, 1);
    assert_eq!(snapshot.staged_file_count, 1);
    assert_eq!(snapshot.unstaged_file_count, 1);
    assert!(!snapshot.show_commit_input());
    assert!(snapshot.show_staged_section());
}

#[test]
fn render_diff_text_preserves_spaces() {
    assert_eq!(
        render_diff_text_string("a b\tc"),
        "a\u{00A0}b\u{00A0}\u{00A0}\u{00A0}\u{00A0}c"
    );
}

#[test]
fn render_diff_text_trims_trailing_newlines() {
    assert_eq!(render_diff_text_string("line\n"), "line");
    assert_eq!(render_diff_text_string("line\r\n"), "line");
}

#[test]
fn map_raw_to_display_ranges_with_spaces_and_tabs() {
    // "a b\tc\n" is shown as "a", a no-break space, "b", four no-break spaces and "c". The shown
    // bytes of "b" begin at 3 and those of "c" end at 13.
    let raw = "a b\tc\n";
    let ranges = vec![range(2, 5)];
    let mapped = map_raw_to_display_ranges(raw, &ranges);
    assert_eq!(mapped, vec![range(3, 13)]);
}

#[test]
fn map_raw_to_display_ranges_empty() {
    let mapped = map_raw_to_display_ranges("hello\n", &Vec::new());
    assert!(mapped.is_empty());
}

#[test]
fn normalize_display_ranges_clamps_invalid_utf8_boundaries() {
    let text = "é🙂x";
    let normalized = normalize_display_ranges(text, &vec![range(1, 5), range(6, 99)]);

    assert_eq!(normalized, vec![range(0, 6), range(6, 7)]);
}

#[test]
fn oversize_detection_matches_guard_document() {
    let document = FileDiffDocument {
        generation: 3,
        selection: DiffSelectionKey {
            section: DiffSectionKind::Unstaged,
            relative_path: RelativePath::parse("Cargo.lock"),
        },
        file: file("Cargo.lock", GitFileStatus::Modified),
        lines: vec![diff_line(OVERSIZE_DIFF_MESSAGE, DiffLineKind::BinaryNotice)],
        hunks: Vec::new(),
    };

    assert!(is_oversize_document(&document, OVERSIZE_DIFF_MESSAGE));
}

#[test]
fn displayed_file_stale_only_when_live_generation_is_newer() {
    assert!(!is_displayed_file_stale(Some(4), Some(4)));
    assert!(!is_displayed_file_stale(Some(5), Some(4)));
    assert!(!is_displayed_file_stale(Some(4), None));
    assert!(is_displayed_file_stale(Some(4), Some(5)));
}

#[test]
fn discard_all_prompt_is_destructive_and_mentions_unstaged_only() {
    let spec = discard_all_prompt_spec("/tmp/repo".to_string());

    assert_eq!(spec.title, "Discard All");
    assert_eq!(spec.confirm_label, "Discard All");
    assert!(matches!(
        spec.confirm_tone,
        PromptDialogConfirmTone::Destructive
    ));
    assert!(spec.detail.as_deref().unwrap().contains("unstaged changes"));
    assert!(spec.detail.as_deref().unwrap().contains("Staged changes"));
}

#[test]
fn create_stash_prompt_allows_empty_message_and_exposes_toggles() {
    let spec = create_stash_prompt_spec("/tmp/repo".to_string());

    assert_eq!(spec.title, "Create Stash");
    assert_eq!(spec.confirm_label, "Create Stash");
    assert!(matches!(
        spec.confirm_tone,
        PromptDialogConfirmTone::Primary
    ));
    assert!(spec.input.as_ref().is_some_and(|input| input.allow_empty));
    assert_eq!(spec.toggles.len(), 2);
    assert_eq!(spec.toggles[0].id, "keep_index");
    assert_eq!(spec.toggles[1].id, "include_untracked");
}

#[test]
fn stash_header_button_label_reflects_view_mode() {
    assert_eq!(
        stash_header_button_label(DiffTabViewMode::WorkingTree, 3),
        "Stashes (3)"
    );
    assert_eq!(
        stash_header_button_label(DiffTabViewMode::Stashes, 3),
        "Back to Diff"
    );
}

#[test]
fn stash_display_title_prefers_cleaned_message_text() {
    assert_eq!(
        stash_display_title("On main: polish stash list", "stash@{0}"),
        "polish stash list"
    );
    assert_eq!(
        stash_display_title("WIP on feature/x: abc1234 tighten modal", "stash@{1}"),
        "abc1234 tighten modal"
    );
    assert_eq!(
        stash_display_title("custom user message", "stash@{2}"),
        "custom user message"
    );
}

#[test]
fn stash_display_title_falls_back_to_label_when_cleaned_text_is_empty() {
    assert_eq!(stash_display_title("On main:", "stash@{0}"), "stash@{0}");
    assert_eq!(stash_display_title("   ", "stash@{1}"), "stash@{1}");
}

#[test]
fn format_relative_time_from_uses_compact_human_units() {
    let now = 1_800_000_000;
    assert_eq!(format_relative_time_from(now, now), "now");
    assert_eq!(format_relative_time_from(now, now - 90), "1m");
    assert_eq!(format_relative_time_from(now, now - 3_600), "1h");
    assert_eq!(format_relative_time_from(now, now - 86_400 * 8), "8d");
    assert_eq!(format_relative_time_from(now, now - 86_400 * 45), "1mo");
}

#[test]
fn build_stash_line_cache_filters_file_headers_and_tracks_width() {
    let document = stash_file_document(
        "src/lib.rs",
        vec![
            diff_line(
                "diff --git a/src/lib.rs b/src/lib.rs",
                DiffLineKind::FileHeader,
            ),
            diff_line("short", DiffLineKind::Context),
            diff_line("the longest stash line", DiffLineKind::Addition),
        ],
    );

    let cache = build_stash_line_cache(&document, ThemeId::Dark, OVERSIZE_DIFF_MESSAGE);

    assert_eq!(cache.selection, document.selection);
    assert_eq!(cache.theme_id, ThemeId::Dark);
    assert_eq!(cache.lines.len(), 2);
    assert!(cache
        .lines
        .iter()
        .all(|line| line.kind != DiffLineKind::FileHeader));
    assert_eq!(cache.max_line_chars, "the longest stash line".len());
    assert!(!cache.is_oversize);
}

#[test]
fn build_stash_line_cache_marks_oversize_notice() {
    let document = stash_file_document(
        "Cargo.lock",
        vec![diff_line(OVERSIZE_DIFF_MESSAGE, DiffLineKind::BinaryNotice)],
    );

    let cache = build_stash_line_cache(&document, ThemeId::Dark, OVERSIZE_DIFF_MESSAGE);

    assert!(cache.is_oversize);
    assert_eq!(cache.lines.len(), 1);
}

#[test]
fn stash_line_cache_key_requires_stash_mode_and_selection() {
    let selection = stash_selection("src/lib.rs");

    assert!(
        stash_line_cache_key(DiffTabViewMode::WorkingTree, &Some(selection.clone())).is_none()
    );
    assert!(stash_line_cache_key(DiffTabViewMode::Stashes, &None).is_none());
    assert_eq!(
        stash_line_cache_key(DiffTabViewMode::Stashes, &Some(selection.clone())),
        Some(selection)
    );
}

#[test]
fn stash_line_cache_matches_requires_same_selection_and_theme() {
    let cached = stash_selection("src/lib.rs");
    let same = stash_selection("src/lib.rs");
    let different = stash_selection("src/main.rs");

    assert!(stash_line_cache_matches(
        &cached,
        ThemeId::Dark,
        &same,
        ThemeId::Dark
    ));
    assert!(!stash_line_cache_matches(
        &cached,
        ThemeId::Dark,
        &different,
        ThemeId::Dark
    ));
    assert!(!stash_line_cache_matches(
        &cached,
        ThemeId::Dark,
        &same,
        ThemeId::Light
    ));
}

#[test]
fn plain_text_for_line_joins_spans() {
    let spans = vec![
        HighlightedSpan {
            text: "fn ".to_string(),
            color: 0xFF0000,
        },
        HighlightedSpan {
            text: "main".to_string(),
            color: 0x00FF00,
        },
    ];
    assert_eq!(plain_text_for_line("fn main", &Some(spans)), "fn main");
}

#[test]
fn plain_text_for_line_normalizes_whitespace() {
    assert_eq!(plain_text_for_line("a\tb\n", &None), "a    b");
}

#[test]
fn selection_range_single_line() {
    let line = diff_line("hello world", DiffLineKind::Addition);
    let sel = DiffSelection {
        start: at(0, 0),
        end: at(0, 5),
        is_selecting: false,
    };
    let range = selection_range_for_line(Some(sel), 0, &line);
    assert!(range.is_some());
}

#[test]
fn selection_range_outside_line() {
    let line = diff_line("hello", DiffLineKind::Context);
    let sel = DiffSelection {
        start: at(2, 0),
        end: at(3, 5),
        is_selecting: false,
    };
    assert!(selection_range_for_line(Some(sel), 0, &line).is_none());
}

#[test]
fn extract_selected_text_single_line() {
    let lines = vec![diff_line("hello world", DiffLineKind::Addition)];
    let text = extract_selected_text(&lines, at(0, 6), at(0, 11));
    assert_eq!(text, Some("world".to_string()));
}

#[test]
fn extract_selected_text_multi_line() {
    let lines = vec![
        diff_line("first line", DiffLineKind::Context),
        diff_line("second line", DiffLineKind::Addition),
        diff_line("third line", DiffLineKind::Context),
    ];
    let text = extract_selected_text(&lines, at(0, 6), at(2, 5));
    assert_eq!(text, Some("line\nsecond line\nthird".to_string()));
}

#[test]
fn extract_selected_text_normalizes_nbsp_in_highlighted_spans() {
    let line = DiffLineView {
        kind: DiffLineKind::Context,
        old_lineno: Some(1),
        new_lineno: Some(1),
        text: "fn main() {".to_string(),
        highlights: Some(vec![
            HighlightedSpan {
                text: "fn\u{00A0}".to_string(),
                color: 0xFF0000,
            },
            HighlightedSpan {
                text: "main()\u{00A0}{".to_string(),
                color: 0x00FF00,
            },
        ]),
        inline_changes: None,
    };
    let text = extract_selected_text(&vec![line], at(0, 0), at(0, 11));
    // Copied text has ordinary spaces.
    assert_eq!(text, Some("fn main() {".to_string()));
}

#[test]
fn collect_file_keys_from_tree() {
    let tree = build_diff_tree(&vec![
        file("src/lib.rs", GitFileStatus::Modified),
        file("src/app/mod.rs", GitFileStatus::Added),
        file("README.md", GitFileStatus::Modified),
    ]);
    let mut keys = Vec::new();
    collect_file_keys(&tree, DiffSectionKind::Unstaged, &mut keys);
    assert_eq!(keys.len(), 3);
    assert_eq!(
        keys[0],
        DiffSelectionKey {
            section: DiffSectionKind::Unstaged,
            relative_path: RelativePath::parse("src/app/mod.rs"),
        }
    );
    assert_eq!(
        keys[1],
        DiffSelectionKey {
            section: DiffSectionKind::Unstaged,
            relative_path: RelativePath::parse("src/lib.rs"),
        }
    );
    assert_eq!(
        keys[2],
        DiffSelectionKey {
            section: DiffSectionKind::Unstaged,
            relative_path: RelativePath::parse("README.md"),
        }
    );
}

#[test]
fn line_cache_match_requires_section_aware_selection() {
    let staged = DiffSelectionKey {
        section: DiffSectionKind::Staged,
        relative_path: RelativePath::parse("src/lib.rs"),
    };
    let unstaged = DiffSelectionKey {
        section: DiffSectionKind::Unstaged,
        relative_path: RelativePath::parse("src/lib.rs"),
    };

    assert!(line_cache_matches(&staged, 7, &staged, 7));
    assert!(!line_cache_matches(&staged, 7, &unstaged, 7));
}

fn modifiers(control: bool, platform: bool) -> Modifiers {
    Modifiers {
        control,
        alt: false,
        shift: false,
        platform,
        function: false,
    }
}

#[test]
fn copy_keystroke_matches_platform_and_control_c() {
    assert!(is_copy_keystroke("c", &modifiers(false, true)));
    assert!(is_copy_keystroke("c", &modifiers(true, false)));
    assert!(!is_copy_keystroke("c", &modifiers(false, false)));
    assert!(!is_copy_keystroke("x", &modifiers(false, true)));
}

#[test]
fn conflict_render_lines_classify_diff3_blocks() {
    let lines = build_conflict_render_lines(
        "<<<<<<< ours\nleft\n||||||| base\ncommon\n=======\nright\n>>>>>>> theirs\n",
        &highlighter(),
    );

    assert_eq!(lines[0].kind, DiffLineKind::ConflictMarker);
    assert_eq!(lines[1].kind, DiffLineKind::ConflictOurs);
    assert_eq!(lines[2].kind, DiffLineKind::ConflictMarker);
    assert_eq!(lines[3].kind, DiffLineKind::ConflictBase);
    assert_eq!(lines[4].kind, DiffLineKind::ConflictMarker);
    assert_eq!(lines[5].kind, DiffLineKind::ConflictTheirs);
    assert_eq!(lines[6].kind, DiffLineKind::ConflictMarker);
    assert!(lines.iter().take(7).all(|line| line.block_index == Some(0)));
}

#[test]
fn conflict_render_lines_include_syntax_highlights_for_code() {
    let lines = build_conflict_render_lines(
        "fn example() {\n<<<<<<< ours\n    let value = 1;\n=======\n    let value = 2;\n>>>>>>> theirs\n}\n",
        &highlighter(),
    );

    assert!(lines[0].highlights.is_some());
    assert!(lines[2].highlights.is_some());
    assert!(lines[3].highlights.is_none());
    assert!(lines[4].highlights.is_some());
    assert!(lines[6].highlights.is_some());
}

#[test]
fn conflict_render_lines_preserve_multiline_state_inside_branches() {
    let lines = build_conflict_render_lines(
        "fn example() {\n    /* start comment\n<<<<<<< ours\ncomment alpha\n=======\ncomment beta\n>>>>>>> theirs\n    end comment */\n}\n",
        &highlighter(),
    );

    assert_eq!(lines[3].highlight_mode, ConflictHighlightMode::Stateful);
    assert_eq!(lines[5].highlight_mode, ConflictHighlightMode::Stateful);
    for line in [&lines[3], &lines[5]] {
        let spans = line
            .highlights
            .as_ref()
            .expect("branch lines should be highlighted");
        for span in spans.iter().filter(|span| !span.text.trim().is_empty()) {
            assert_eq!(span.color, 0x9499A8);
        }
    }
    assert_eq!(lines[7].highlight_mode, ConflictHighlightMode::Stateful);
}

#[test]
fn conflict_render_lines_fall_back_after_ambiguous_branch_exit() {
    let lines = build_conflict_render_lines(
        "fn example() {\n<<<<<<< ours\n    let value = r#\"\n=======\n    let value = 1;\n>>>>>>> theirs\nstill ambiguous\n}\n",
        &highlighter(),
    );

    assert_eq!(lines[6].kind, DiffLineKind::Context);
    assert_eq!(lines[6].highlight_mode, ConflictHighlightMode::Fallback);
    assert!(lines[6].highlights.is_some());
}

#[test]
fn conflict_render_lines_incremental_rebuild_matches_full_rebuild() {
    let original = "fn example() {\n    let value = r#\"\n<<<<<<< ours\nours text\n=======\ntheirs text\n>>>>>>> theirs\n\"#;\n}\n";
    let edited = "fn example() {\n    let value = r#\"\n<<<<<<< ours\nours updated text\n=======\ntheirs text\n>>>>>>> theirs\n\"#;\n}\n";
    let prior_cache = cache_for_conflict_text(original, "conflict.rs");

    let (incremental_lines, _) =
        build_conflict_render_lines_with_cache(edited, &highlighter(), Some(&prior_cache));
    let (full_lines, _) = build_conflict_render_lines_with_cache(edited, &highlighter(), None);

    assert_eq!(
        conflict_line_fingerprint(&incremental_lines),
        conflict_line_fingerprint(&full_lines)
    );
}

#[test]
fn conflict_navigation_from_no_active_block_targets_expected_edge() {
    assert_eq!(navigated_conflict_block_index(3, None, true), Some(0));
    assert_eq!(navigated_conflict_block_index(3, None, false), Some(2));
    assert_eq!(navigated_conflict_block_index(1, None, true), Some(0));
    assert_eq!(navigated_conflict_block_index(1, None, false), Some(0));
}

#[test]
fn conflict_navigation_buttons_stay_enabled_without_active_block() {
    assert!(!conflict_block_navigation_disabled(3, None, true));
    assert!(!conflict_block_navigation_disabled(3, None, false));
    assert!(!conflict_block_navigation_disabled(1, None, true));
    assert!(!conflict_block_navigation_disabled(1, None, false));
    assert!(conflict_block_navigation_disabled(0, None, true));
    assert!(conflict_block_navigation_disabled(0, None, false));
}

#[test]
fn replace_document_range_reparses_conflict_blocks() {
    let text = "<<<<<<< ours\nleft\n=======\nright\n>>>>>>> theirs\n";
    let parsed = parse_conflict_file_text(text).unwrap();
    let mut document = document(text, 0, None);
    document.blocks = parsed.blocks;
    document.active_block_index = Some(0);

    let block = document.blocks[0];
    replace_document_range(
        &mut document,
        block.whole_block,
        "left\nright\n",
        &parse_conflict_file_text,
    );

    assert!(document.is_dirty);
    assert!(document.blocks.is_empty());
    assert!(document.parse_error.is_none());
    assert_eq!(document.raw_text, "left\nright\n");
}

#[test]
fn delete_document_backward_removes_previous_character() {
    let mut document = document("abc", 2, None);

    assert!(delete_document_backward(
        &mut document,
        &parse_conflict_file_text
    ));
    assert_eq!(document.raw_text, "ac");
    assert_eq!(document.cursor_pos, 1);
    assert!(document.selection_range.is_none());
    assert!(document.is_dirty);
}

#[test]
fn delete_document_forward_removes_next_character() {
    let mut document = document("abc", 1, None);

    assert!(delete_document_forward(
        &mut document,
        &parse_conflict_file_text
    ));
    assert_eq!(document.raw_text, "ac");
    assert_eq!(document.cursor_pos, 1);
    assert!(document.selection_range.is_none());
    assert!(document.is_dirty);
}

#[test]
fn indent_document_selection_inserts_spaces_at_cursor_without_selection() {
    let mut document = document("fn main() {}\n", 3, None);

    assert!(indent_document_selection(
        &mut document,
        &parse_conflict_file_text
    ));
    assert_eq!(document.raw_text, "fn     main() {}\n");
    assert_eq!(document.cursor_pos, 7);
    assert!(document.selection_range.is_none());
}

#[test]
fn indent_document_selection_multiline_indents_all_selected_lines() {
    let text = "alpha\nbeta\ngamma\n";
    let mut document = document(text, 10, Some(range(1, 10)));

    assert!(indent_document_selection(
        &mut document,
        &parse_conflict_file_text
    ));
    assert_eq!(document.raw_text, "    alpha\n    beta\ngamma\n");
    assert_eq!(document.selection_range, Some(range(5, 18)));
    assert_eq!(document.cursor_pos, 18);
}

#[test]
fn outdent_document_selection_removes_spaces_from_current_line() {
    let mut document = document("    fn main() {}\n", 8, None);

    assert!(outdent_document_selection(
        &mut document,
        &parse_conflict_file_text
    ));
    assert_eq!(document.raw_text, "fn main() {}\n");
    assert_eq!(document.cursor_pos, 4);
    assert!(document.selection_range.is_none());
}

#[test]
fn outdent_document_selection_multiline_updates_selection() {
    let text = "    alpha\n    beta\ngamma\n";
    let mut document = document(text, 18, Some(range(5, 18)));

    assert!(outdent_document_selection(
        &mut document,
        &parse_conflict_file_text
    ));
    assert_eq!(document.raw_text, "alpha\nbeta\ngamma\n");
    assert_eq!(document.selection_range, Some(range(1, 10)));
    assert_eq!(document.cursor_pos, 10);
}

fn palette() -> OrcaTheme {
    OrcaTheme {
        ABYSS: 0x01,
        DEEP: 0x02,
        CURRENT: 0x03,
        SURFACE: 0x04,
        SLATE: 0x05,
        FOG: 0x06,
        BONE: 0x07,
        PATCH: 0x08,
        ORCA_BLUE: 0x09,
        STATUS_GREEN: 0x0A,
        STATUS_AMBER: 0x0B,
        STATUS_CORAL: 0x0C,
        SEAFOAM: 0x0D,
        BORDER_DEFAULT: 0x0E,
        BORDER_EMPHASIS: 0x0F,
    }
}

#[test]
fn diff_line_colors_include_conflict_variants() {
    let palette = palette();

    let marker = diff_line_colors(&palette, DiffLineKind::ConflictMarker);
    let ours = diff_line_colors(&palette, DiffLineKind::ConflictOurs);
    let base = diff_line_colors(&palette, DiffLineKind::ConflictBase);
    let theirs = diff_line_colors(&palette, DiffLineKind::ConflictTheirs);

    assert_eq!(marker.text, palette.STATUS_AMBER);
    assert_eq!(ours.text, palette.BONE);
    assert_eq!(base.text, palette.BONE);
    assert_eq!(theirs.text, palette.BONE);
    assert!(marker.background.is_some());
    assert!(ours.background.is_some());
    assert!(base.background.is_some());
    assert!(theirs.background.is_some());
}
