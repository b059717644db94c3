use orcashell_ui::conflict_document::{
    active_block_index_for_cursor, apply_active_conflict_choice, copy_conflict_selection,
    cut_conflict_selection, delete_document_backward, delete_document_forward,
    indent_document_selection, move_conflict_active_block, move_conflict_cursor_horizontal,
    navigated_conflict_block_index, outdent_document_selection, reparse_conflict_document,
    replace_document_selection, select_all_conflict_text, ConflictAcceptChoice,
    ConflictEditorDocument, ParsedConflictBlock, ParsedConflictFile,
};
use orcashell_ui::conflict_highlight::{
    build_conflict_render_lines, build_conflict_render_lines_with_cache, CachedConflictLines,
    LineHighlighter,
};
use orcashell_ui::conflict_lines::{
    byte_offset_for_line_column, classify_conflict_render_lines, line_and_column_for_offset,
    line_edge_cursor_target, selection_range_for_conflict_line, vertical_cursor_target,
    ConflictHighlightMode,
};
use orcashell_ui::keys::{handle_conflict_key_down, is_control, ConflictKeyCommand, Modifiers};
use orcashell_ui::model::{
    ChangedFile, DiffLineKind, DiffSectionKind, DiffSelectionKey, GitFileStatus, HighlightedSpan,
    RelativePath,
};
use orcashell_ui::text::{
    clamp_offset_to_char_boundary, leading_outdent_len, line_index_for_offset_in_text,
    line_start_for_offset, next_char_boundary, previous_char_boundary, simple_hash,
    touched_line_starts, ByteRange,
};
use orcashell_ui::theme::ThemeId;

fn range(start: usize, end: usize) -> ByteRange {
    ByteRange { start, end }
}

fn document(text: &str, cursor_pos: usize, selection_range: Option<ByteRange>) -> ConflictEditorDocument {
    ConflictEditorDocument {
        generation: 1,
        version: 4,
        selection: DiffSelectionKey {
            section: DiffSectionKind::Conflicted,
            relative_path: RelativePath::parse("conflict.rs"),
        },
        file: ChangedFile {
            relative_path: RelativePath::parse("conflict.rs"),
            status: GitFileStatus::Conflicted,
            is_binary: false,
            insertions: 0,
            deletions: 0,
        },
        initial_raw_text: text.to_string(),
        raw_text: text.to_string(),
        blocks: Vec::new(),
        has_base_sections: false,
        parse_error: None,
        is_dirty: false,
        cursor_pos,
        selection_range,
        active_block_index: None,
    }
}

fn no_blocks(_text: &str) -> Result<ParsedConflictFile, String> {
    Ok(ParsedConflictFile {
        blocks: Vec::new(),
        has_base_sections: false,
    })
}

fn fails(_text: &str) -> Result<ParsedConflictFile, String> {
    Err("broken".to_string())
}

fn block(block_index: usize, start: usize, end: usize) -> ParsedConflictBlock {
    ParsedConflictBlock {
        block_index,
        whole_block: range(start, end),
        ours: range(start, start),
        base: None,
        theirs: range(end, end),
    }
}

#[test]
fn outdent_takes_back_what_indent_did() {
    let text = "alpha\n  beta\n\tgamma\n\nlast";
    let mut document = document(text, 20, Some(range(2, 23)));
    assert!(indent_document_selection(&mut document, &no_blocks));
    assert_eq!(
        document.raw_text,
        "    alpha\n      beta\n    \tgamma\n    \n    last"
    );
    assert!(outdent_document_selection(&mut document, &no_blocks));
    assert_eq!(document.raw_text, text);
    assert_eq!(document.selection_range, Some(range(2, 23)));
    assert_eq!(document.cursor_pos, 23);
}

#[test]
fn selection_that_ends_behind_a_line_feed_leaves_the_next_line() {
    let mut document = document("a\nb\nc\n", 4, Some(range(0, 4)));
    assert!(indent_document_selection(&mut document, &no_blocks));
    assert_eq!(document.raw_text, "    a\n    b\nc\n");
    assert_eq!(document.selection_range, Some(range(4, 12)));
}

#[test]
fn outdent_without_indentation_changes_nothing() {
    let mut document = document("alpha\n", 2, None);
    assert!(!outdent_document_selection(&mut document, &no_blocks));
    assert_eq!(document.raw_text, "alpha\n");
    assert_eq!(document.version, 4);
    assert!(!document.is_dirty);
}

#[test]
fn outdent_takes_a_tab_or_up_to_four_spaces() {
    assert_eq!(leading_outdent_len("\t  x", 0), 1);
    assert_eq!(leading_outdent_len("      x", 0), 4);
    assert_eq!(leading_outdent_len("  x", 0), 2);
    assert_eq!(leading_outdent_len("x", 0), 0);
    assert_eq!(leading_outdent_len("a\n   b", 2), 3);
}

#[test]
fn pasting_returns_what_was_cut() {
    let mut document = document("one two three", 7, Some(range(4, 8)));
    let cut = cut_conflict_selection(&mut document, &no_blocks);
    assert_eq!(cut.as_deref(), Some("two "));
    assert_eq!(document.raw_text, "one three");
    assert_eq!(document.cursor_pos, 4);
    replace_document_selection(&mut document, "two ", &no_blocks);
    assert_eq!(document.raw_text, "one two three");
    assert_eq!(document.cursor_pos, 8);
    assert!(document.selection_range.is_none());
}

#[test]
fn cutting_without_a_selection_changes_nothing() {
    let mut document = document("one", 1, None);
    assert!(cut_conflict_selection(&mut document, &no_blocks).is_none());
    assert_eq!(document.raw_text, "one");
    assert!(!document.is_dirty);
}

#[test]
fn backspace_takes_back_a_typed_character() {
    let mut document = document("añb", 3, None);
    replace_document_selection(&mut document, "🙂", &no_blocks);
    assert_eq!(document.raw_text, "añ🙂b");
    assert_eq!(document.cursor_pos, 7);
    assert!(delete_document_backward(&mut document, &no_blocks));
    assert_eq!(document.raw_text, "añb");
    assert_eq!(document.cursor_pos, 3);
}

#[test]
fn deletions_stop_at_the_ends_of_the_text() {
    let mut start = document("ab", 0, None);
    assert!(!delete_document_backward(&mut start, &no_blocks));
    let mut end = document("ab", 2, None);
    assert!(!delete_document_forward(&mut end, &no_blocks));
    assert_eq!(start.raw_text, "ab");
    assert_eq!(end.raw_text, "ab");
    assert!(!start.is_dirty && !end.is_dirty);
}

#[test]
fn select_all_and_copy_give_the_whole_text() {
    let mut full = document("x\ny", 0, None);
    let mut anchor = None;
    select_all_conflict_text(&mut full, &mut anchor);
    assert_eq!(anchor, Some(0));
    assert_eq!(full.cursor_pos, 3);
    assert_eq!(copy_conflict_selection(&full).as_deref(), Some("x\ny"));

    let mut empty = document("", 0, None);
    select_all_conflict_text(&mut empty, &mut anchor);
    assert!(copy_conflict_selection(&empty).is_none());
}

#[test]
fn a_failed_parse_keeps_the_error_and_drops_the_blocks() {
    let mut document = document("text", 0, None);
    document.blocks = vec![block(0, 0, 4)];
    document.has_base_sections = true;
    document.active_block_index = Some(0);
    replace_document_selection(&mut document, "x", &fails);
    assert_eq!(document.raw_text, "xtext");
    assert_eq!(document.parse_error.as_deref(), Some("broken"));
    assert!(document.blocks.is_empty());
    assert!(!document.has_base_sections);
    assert_eq!(document.active_block_index, None);
    assert_eq!(document.version, 5);
}

#[test]
fn a_parse_settles_cursor_selection_and_active_block() {
    let mut settled = document("é\nabc", 1, Some(range(1, 2)));
    settled.active_block_index = Some(1);
    reparse_conflict_document(
        &mut settled,
        Ok(ParsedConflictFile {
            blocks: vec![block(0, 3, 4), block(1, 5, 6)],
            has_base_sections: true,
        }),
    );
    assert_eq!(settled.cursor_pos, 0);
    assert_eq!(settled.selection_range, Some(range(0, 2)));
    assert_eq!(settled.active_block_index, Some(1));
    assert!(settled.has_base_sections);
    assert!(settled.parse_error.is_none());
}

#[test]
fn the_version_stays_at_its_largest_value() {
    let mut document = document("a", 1, None);
    document.version = u64::MAX;
    replace_document_selection(&mut document, "b", &no_blocks);
    assert_eq!(document.version, u64::MAX);
}

#[test]
fn accepting_a_side_replaces_the_block() {
    // ours is "L", the base "B" and theirs "R"
    let text = "<L|B=R>";
    let parsed = ParsedConflictBlock {
        block_index: 0,
        whole_block: range(0, 7),
        ours: range(1, 2),
        base: Some(range(3, 4)),
        theirs: range(5, 6),
    };
    let cases = [
        (ConflictAcceptChoice::Ours, "L"),
        (ConflictAcceptChoice::Theirs, "R"),
        (ConflictAcceptChoice::Both, "LR"),
        (ConflictAcceptChoice::Base, "B"),
    ];
    for (choice, expected) in cases {
        let mut document = document(text, 0, None);
        document.blocks = vec![parsed];
        document.active_block_index = Some(0);
        apply_active_conflict_choice(&mut document, choice, &no_blocks);
        assert_eq!(document.raw_text, expected);
        assert!(document.is_dirty);
    }

    let mut without_base = document(text, 0, None);
    without_base.blocks = vec![ParsedConflictBlock { base: None, ..parsed }];
    without_base.active_block_index = Some(0);
    apply_active_conflict_choice(&mut without_base, ConflictAcceptChoice::Base, &no_blocks);
    assert_eq!(without_base.raw_text, "");

    let mut inactive = document(text, 0, None);
    inactive.blocks = vec![parsed];
    apply_active_conflict_choice(&mut inactive, ConflictAcceptChoice::Ours, &no_blocks);
    assert_eq!(inactive.raw_text, text);
}

#[test]
fn navigation_goes_on_and_back() {
    assert_eq!(navigated_conflict_block_index(3, Some(0), true), Some(1));
    assert_eq!(navigated_conflict_block_index(3, Some(1), false), Some(0));
    assert_eq!(navigated_conflict_block_index(3, Some(2), true), Some(2));
    assert_eq!(navigated_conflict_block_index(3, Some(0), false), Some(0));
    assert_eq!(navigated_conflict_block_index(0, Some(0), true), None);
}

#[test]
fn moving_to_a_block_puts_the_cursor_at_its_start() {
    let mut document = document("a\nb\nc\n", 0, Some(range(0, 1)));
    document.blocks = vec![block(0, 0, 2), block(1, 4, 6)];
    assert_eq!(move_conflict_active_block(&mut document, false), Some(2));
    assert_eq!(document.active_block_index, Some(1));
    assert_eq!(document.cursor_pos, 4);
    assert!(document.selection_range.is_none());
    assert_eq!(move_conflict_active_block(&mut document, false), Some(0));
    assert_eq!(document.active_block_index, Some(0));
    assert_eq!(
        active_block_index_for_cursor(&document.blocks, 6),
        Some(1)
    );
    assert_eq!(active_block_index_for_cursor(&document.blocks, 3), None);
}

#[test]
fn horizontal_moves_follow_characters_and_leave_selections_at_their_edges() {
    let mut document = document("aé", 1, None);
    let mut anchor = None;
    move_conflict_cursor_horizontal(&mut document, &mut anchor, true, false);
    assert_eq!(document.cursor_pos, 3);
    move_conflict_cursor_horizontal(&mut document, &mut anchor, false, true);
    assert_eq!(document.cursor_pos, 1);
    assert_eq!(document.selection_range, Some(range(1, 3)));
    move_conflict_cursor_horizontal(&mut document, &mut anchor, true, false);
    assert_eq!(document.cursor_pos, 3);
    assert!(document.selection_range.is_none());
}

#[test]
fn boundaries_lines_and_hashes_of_text() {
    assert_eq!(clamp_offset_to_char_boundary("é🙂x", 5), 2);
    assert_eq!(clamp_offset_to_char_boundary("é🙂x", 99), 7);
    assert_eq!(next_char_boundary("é🙂x", 2), 6);
    assert_eq!(previous_char_boundary("é🙂x", 6), 2);
    assert_eq!(previous_char_boundary("é", 0), 0);
    assert_eq!(line_index_for_offset_in_text("a\nb\nc", 3), 1);
    assert_eq!(line_start_for_offset("a\nbc\nd", 4), 2);
    assert_eq!(
        touched_line_starts("a\nb\nc", Some(range(0, 5)), 0),
        vec![0, 2, 4]
    );
    assert_eq!(touched_line_starts("a\nb\nc", None, 3), vec![2]);
    assert_eq!(simple_hash(""), 0xcbf29ce484222325);
    assert_eq!(simple_hash("a"), 0xaf63bd4c8601b7be);
}

#[test]
fn offsets_and_columns_of_conflict_lines_agree() {
    let lines = classify_conflict_render_lines("ab\ncé\n\nlast");
    assert_eq!(lines.len(), 4);
    assert_eq!((lines[1].start, lines[1].end), (3, 7));
    assert_eq!(lines[3].line_number, 4);
    assert_eq!(line_and_column_for_offset(&lines, 4), (1, 1));
    assert_eq!(byte_offset_for_line_column(&lines, 1, 1), 4);
    assert_eq!(byte_offset_for_line_column(&lines, 1, 99), 6);
    assert_eq!(vertical_cursor_target(&lines, 4, true), 7);
    assert_eq!(vertical_cursor_target(&lines, 4, false), 1);
    assert_eq!(line_edge_cursor_target(&lines, 4, false), 3);
    assert_eq!(line_edge_cursor_target(&lines, 4, true), 6);
    assert_eq!(
        selection_range_for_conflict_line(Some(range(1, 6)), &lines[1]),
        Some(range(0, 3))
    );
    assert_eq!(
        selection_range_for_conflict_line(Some(range(0, 2)), &lines[1]),
        None
    );
}

fn plain_highlighter() -> LineHighlighter<
    impl Fn(u64, &str) -> (u64, Vec<HighlightedSpan>),
    impl Fn(&str) -> Option<Vec<HighlightedSpan>>,
> {
    LineHighlighter {
        initial: Some(0),
        step: |checkpoint: u64, line: &str| {
            let next = checkpoint + line.matches('{').count() as u64;
            let span = HighlightedSpan {
                text: line.trim_end().to_string(),
                color: checkpoint as u32,
            };
            (next, vec![span])
        },
        alone: |_line: &str| None,
    }
}

#[test]
fn incremental_lines_are_the_full_lines_after_an_edit_in_a_long_file() {
    let mut original = String::new();
    for i in 0..400 {
        original.push_str(&format!("line {i} {{\n"));
        if i % 90 == 17 {
            original.push_str("<<<<<<< ours\na\n=======\nb\n>>>>>>> theirs\n");
        }
    }
    let edited = original.replacen("line 201 {", "line two hundred and one {", 1);
    let (lines, anchors) =
        build_conflict_render_lines_with_cache(&original, &plain_highlighter(), None);
    assert!(anchors.len() > 1);
    let cache = CachedConflictLines {
        selection: DiffSelectionKey {
            section: DiffSectionKind::Conflicted,
            relative_path: RelativePath::parse("long.rs"),
        },
        generation: 1,
        version: 1,
        theme_id: ThemeId::Dark,
        raw_text: original,
        lines,
        anchors,
        max_line_chars: 0,
    };
    let (incremental, _) =
        build_conflict_render_lines_with_cache(&edited, &plain_highlighter(), Some(&cache));
    let full = build_conflict_render_lines(&edited, &plain_highlighter());
    assert_eq!(incremental.len(), full.len());
    for (left, right) in incremental.iter().zip(full.iter()) {
        assert_eq!(left.raw_text, right.raw_text);
        assert_eq!(left.highlights, right.highlights);
        assert_eq!(left.highlight_mode, right.highlight_mode);
        assert_eq!((left.start, left.end), (right.start, right.end));
    }
}

#[test]
fn a_file_without_a_grammar_is_not_highlighted() {
    let highlighter = LineHighlighter {
        initial: None,
        step: |checkpoint: u64, _line: &str| (checkpoint, Vec::new()),
        alone: |line: &str| {
            Some(vec![HighlightedSpan {
                text: line.to_string(),
                color: 7,
            }])
        },
    };
    let lines = build_conflict_render_lines("a\n<<<<<<< o\nb\n", &highlighter);
    assert!(lines
        .iter()
        .all(|line| line.highlight_mode == ConflictHighlightMode::Fallback));
    assert!(lines.iter().all(|line| line.highlights.is_none()));
    assert_eq!(lines[1].kind, DiffLineKind::ConflictMarker);
    assert_eq!(lines[2].kind, DiffLineKind::ConflictOurs);
}

fn keys(control: bool, shift: bool, platform: bool) -> Modifiers {
    Modifiers {
        control,
        alt: false,
        shift,
        platform,
        function: false,
    }
}

#[test]
fn keys_of_the_conflict_editor() {
    let none = keys(false, false, false);
    let typed = Some("x".to_string());
    assert_eq!(
        handle_conflict_key_down("tab", &keys(false, true, false), &None, false),
        ConflictKeyCommand::Outdent
    );
    assert_eq!(
        handle_conflict_key_down("tab", &none, &None, false),
        ConflictKeyCommand::Indent
    );
    assert_eq!(
        handle_conflict_key_down("backspace", &none, &None, false),
        ConflictKeyCommand::DeleteBackward
    );
    assert_eq!(
        handle_conflict_key_down("left", &none, &None, false),
        ConflictKeyCommand::MoveHorizontal { forward: false }
    );
    assert_eq!(
        handle_conflict_key_down("a", &keys(true, false, false), &None, false),
        ConflictKeyCommand::SelectAll
    );
    assert_eq!(
        handle_conflict_key_down("c", &keys(false, false, true), &None, false),
        ConflictKeyCommand::Copy
    );
    assert_ne!(
        handle_conflict_key_down("x", &none, &typed, false),
        handle_conflict_key_down("x", &keys(true, false, false), &typed, false)
    );
}

#[test]
fn control_characters_are_those_of_unicode() {
    for code in 0..=0x10FFFFu32 {
        if let Some(ch) = char::from_u32(code) {
            assert_eq!(is_control(ch), ch.is_control());
        }
    }
}
