use orcashell_ui::diff_cache::{
    click_selection, copy_selection, filter_lines, word_around, word_bounds_at,
};
use orcashell_ui::diff_runs::{
    map_raw_to_display_ranges, normalize_display_ranges, render_highlighted_text, RunBackground,
    StyledRun,
};
use orcashell_ui::diff_state::FileDiffDocument;
use orcashell_ui::diff_text::{
    clipboard_text_for_line, display_char_count, extract_selected_text, render_diff_text_string,
    selection_range_for_line, DiffPosition, DiffSelection,
};
use orcashell_ui::model::{
    ChangedFile, DiffLineKind, DiffLineView, DiffSectionKind, DiffSelectionKey, GitFileStatus,
    HighlightedSpan, RelativePath,
};
use orcashell_ui::strings::{format_decimal, is_whitespace, join, split_on, trim};
use orcashell_ui::text::{char_to_byte, ByteRange};
use orcashell_ui::time::{format_relative_time_from, format_timestamp, timestamp_to_utc};

fn range(start: usize, end: usize) -> ByteRange {
    ByteRange { start, end }
}

fn line(text: &str, kind: DiffLineKind) -> DiffLineView {
    DiffLineView {
        kind,
        old_lineno: None,
        new_lineno: None,
        text: text.to_string(),
        highlights: None,
        inline_changes: None,
    }
}

fn at(line: usize, col: usize) -> DiffPosition {
    DiffPosition { line, col }
}

#[test]
fn white_space_is_that_of_unicode() {
    for code in 0..=0x10FFFFu32 {
        if let Some(ch) = char::from_u32(code) {
            assert_eq!(is_whitespace(ch), ch.is_whitespace());
        }
    }
}

#[test]
fn strings_split_join_and_trim() {
    assert_eq!(split_on("a,,b", ','), vec!["a", "", "b"]);
    assert_eq!(split_on("", ','), vec![""]);
    assert_eq!(
        join(&vec!["x".to_string(), "y".to_string(), "z".to_string()], ", "),
        "x, y, z"
    );
    assert_eq!(join(&Vec::new(), ", "), "");
    assert_eq!(trim("\u{2003} a b\t\n"), "a b");
    assert_eq!(trim(" \u{3000}"), "");
    assert_eq!(format_decimal(0), "0");
    assert_eq!(format_decimal(u64::MAX), "18446744073709551615");
}

#[test]
fn paths_drop_empty_parts_and_dots() {
    assert_eq!(
        RelativePath::parse("./src//app/./mod.rs").components,
        vec!["src", "app", "mod.rs"]
    );
    assert_eq!(RelativePath::parse("src/app").display(), "src/app");
    assert_eq!(RelativePath::parse("").display(), "");
}

#[test]
fn times_are_utc() {
    assert_eq!(format_timestamp(0), "1970-01-01 00:00 UTC");
    assert_eq!(format_timestamp(951_782_399), "2000-02-28 23:59 UTC");
    assert_eq!(format_timestamp(951_782_400), "2000-02-29 00:00 UTC");
    assert_eq!(format_timestamp(-1), "1969-12-31 23:59 UTC");
    assert_eq!(format_timestamp(4_107_542_400), "2100-03-01 00:00 UTC");
    let time = timestamp_to_utc(1_700_000_100);
    assert_eq!((time.year, time.month, time.day), (2023, 11, 14));
}

#[test]
fn ages_change_their_unit_at_its_first_full_value() {
    let now = 1_800_000_000;
    assert_eq!(format_relative_time_from(now, now + 5), "now");
    assert_eq!(format_relative_time_from(now, now - 59), "now");
    assert_eq!(format_relative_time_from(now, now - 60), "1m");
    assert_eq!(format_relative_time_from(now, now - 3_599), "59m");
    assert_eq!(format_relative_time_from(now, now - 86_399), "23h");
    assert_eq!(format_relative_time_from(now, now - 2_591_999), "29d");
    assert_eq!(format_relative_time_from(now, now - 31_535_999), "12mo");
    assert_eq!(format_relative_time_from(now, now - 31_536_000), "1y");
}

#[test]
fn shown_text_counts_tabs_as_four() {
    assert_eq!(display_char_count("a\tb"), 6);
    assert_eq!(display_char_count("é\n"), 1);
    assert_eq!(render_diff_text_string("\t"), "\u{00A0}\u{00A0}\u{00A0}\u{00A0}");
    assert_eq!(char_to_byte("aé🙂", 2), 3);
    assert_eq!(char_to_byte("aé🙂", 9), 7);
}

#[test]
fn copied_text_has_ordinary_spaces() {
    assert_eq!(clipboard_text_for_line("a\u{00A0}b\tc\n", &None), "a b    c");
}

#[test]
fn normalizing_ranges_again_changes_nothing() {
    let text = "a\u{00E9}bcdef";
    let once = normalize_display_ranges(
        text,
        &vec![range(5, 99), range(2, 3), range(0, 1), range(6, 7)],
    );
    assert_eq!(once, vec![range(0, 1), range(1, 3), range(5, 8)]);
    assert_eq!(normalize_display_ranges(text, &once), once);
}

#[test]
fn ranges_that_overlap_or_touch_in_a_character_are_merged() {
    assert_eq!(
        normalize_display_ranges("abcdef", &vec![range(3, 5), range(0, 2), range(1, 4)]),
        vec![range(0, 5)]
    );
    assert_eq!(
        normalize_display_ranges("abc", &vec![range(2, 2), range(9, 12)]),
        Vec::new()
    );
    assert_eq!(
        map_raw_to_display_ranges("\tx", &vec![range(0, 1), range(1, 2)]),
        vec![range(0, 8), range(8, 9)]
    );
}

#[test]
fn runs_show_selection_over_changes() {
    let styled = render_highlighted_text(
        "abcdef",
        &None,
        Some(range(2, 4)),
        &Some(vec![range(1, 5)]),
        true,
    );
    assert_eq!(styled.text, "abcdef");
    let covered: Vec<(usize, usize, Option<RunBackground>)> = styled
        .runs
        .iter()
        .map(|run: &StyledRun| (run.start, run.end, run.background))
        .collect();
    assert!(covered.contains(&(2, 4, Some(RunBackground::Selection))));
    assert!(covered
        .iter()
        .any(|run| run.0 == 1 && run.2 == Some(RunBackground::InlineChange)));
    let mut last = 0;
    for run in &styled.runs {
        assert!(last <= run.start && run.start < run.end && run.end <= 6);
        last = run.end;
    }
}

#[test]
fn highlighted_spans_give_their_colours_to_runs() {
    let spans = vec![
        HighlightedSpan {
            text: "fn ".to_string(),
            color: 1,
        },
        HighlightedSpan {
            text: "x".to_string(),
            color: 2,
        },
    ];
    let styled = render_highlighted_text("fn x", &Some(spans), None, &None, false);
    assert_eq!(styled.text, "fn x");
    assert_eq!(styled.runs[0].color, Some(1));
    assert_eq!(styled.runs.last().unwrap().color, Some(2));
}

#[test]
fn selections_are_read_in_either_direction() {
    let lines = vec![
        line("first", DiffLineKind::Context),
        line("second", DiffLineKind::Context),
    ];
    let backward = DiffSelection {
        start: at(1, 3),
        end: at(0, 2),
        is_selecting: true,
    };
    let (start, end) = backward.normalized();
    assert_eq!((start, end), (at(0, 2), at(1, 3)));
    assert_eq!(
        extract_selected_text(&lines, start, end),
        Some("rst\nsec".to_string())
    );
    assert_eq!(
        selection_range_for_line(Some(backward), 1, &lines[1]),
        Some(range(0, 3))
    );
    assert_eq!(selection_range_for_line(None, 1, &lines[1]), None);
}

#[test]
fn words_hold_letters_numbers_and_underscores() {
    let chars: Vec<char> = "let größe_2 = 7;".chars().collect();
    assert_eq!(word_around(&chars, 6), (4, 11));
    assert_eq!(word_around(&chars, 14), (14, 15));
    let lines = vec![line("let x1 = 2;", DiffLineKind::Context)];
    assert_eq!(word_bounds_at(&lines, 0, 5), Some((4, 6)));
    assert_eq!(word_bounds_at(&lines, 1, 0), None);
}

#[test]
fn clicks_place_the_cursor_select_a_word_or_a_line() {
    let lines = vec![line("let x1 = 2;", DiffLineKind::Context)];
    let single = click_selection(&lines, 0, 5, 1).unwrap();
    assert_eq!((single.start, single.end), (at(0, 5), at(0, 5)));
    assert!(single.is_selecting);
    let word = click_selection(&lines, 0, 5, 2).unwrap();
    assert_eq!((word.start, word.end), (at(0, 4), at(0, 6)));
    let whole = click_selection(&lines, 0, 5, 3).unwrap();
    assert_eq!((whole.start, whole.end), (at(0, 0), at(0, 11)));
}

#[test]
fn file_headers_are_left_out_of_the_shown_lines() {
    let lines = vec![
        line("diff --git", DiffLineKind::FileHeader),
        line("a\tb", DiffLineKind::Context),
        line("+++ b", DiffLineKind::FileHeader),
        line("c", DiffLineKind::Addition),
    ];
    let (shown, longest) = filter_lines(&lines);
    assert_eq!(shown.len(), 2);
    assert_eq!(longest, 6);

    let document = FileDiffDocument {
        generation: 1,
        selection: DiffSelectionKey {
            section: DiffSectionKind::Staged,
            relative_path: RelativePath::parse("a"),
        },
        file: ChangedFile {
            relative_path: RelativePath::parse("a"),
            status: GitFileStatus::Modified,
            is_binary: false,
            insertions: 0,
            deletions: 0,
        },
        lines,
        hunks: Vec::new(),
    };
    let selection = DiffSelection {
        start: at(1, 1),
        end: at(0, 5),
        is_selecting: false,
    };
    assert_eq!(
        copy_selection(Some(selection), Some(&document)),
        Some("b\nc".to_string())
    );
    assert_eq!(copy_selection(None, Some(&document)), None);
    assert_eq!(copy_selection(Some(selection), None), None);
}
