use orcashell_ui::keys::Modifiers;
use orcashell_ui::prompt_dialog::{
    find_toggle, pasted_line, render_prompt_dialog, PromptDialogAction, PromptDialogConfirmTone,
    PromptDialogInputSpec, PromptDialogOverlay, PromptDialogReply, PromptDialogResult,
    PromptDialogSelectionOption, PromptDialogSelectionSpec, PromptDialogSpec,
    PromptDialogToggleSpec, PromptFocus, ToggleValue,
};
use orcashell_ui::prompts::{
    confirm_prompt, create_branch_prompt_spec, create_stash_prompt_spec, delete_branch_prompt_spec,
    drop_stash_prompt_spec, pop_stash_prompt_spec, publish_step, PromptCommand, PublishStep,
};
use orcashell_ui::repository_graph::{
    HeadState, LocalBranchEntry, Oid, RepositoryGraphDocument,
};
use orcashell_ui::settings::{
    apply_change, AppSettings, AppSettingsInner, CursorStyle, SettingsChange, ThemeMode,
};
use orcashell_ui::settings_view::{
    change_label, field_value, parse_patterns, render_options, row_steps, render_rows, row_field, row_label,
    row_toggle, text_field_display, EditingField, SettingsControl, SettingsKeyOutcome, SettingsRow,
    SettingsView,
};
use orcashell_ui::theme::{OrcaTheme, ThemeId};

fn palette() -> OrcaTheme {
    OrcaTheme {
        ABYSS: 0x01,
        DEEP: 0x02,
        CURRENT: 0x03,
        SURFACE: 0x04,
        SLATE: 0x05,
        FOG: 0x06,
        BONE: 0x07,
        PATCH: 0x08,
        ORCA_BLUE: 0x09,
        STATUS_GREEN: 0x0A,
        STATUS_AMBER: 0x0B,
        STATUS_CORAL: 0x0C,
        SEAFOAM: 0x0D,
        BORDER_DEFAULT: 0x0E,
        BORDER_EMPHASIS: 0x0F,
    }
}

fn accepts(_value: &str) -> Option<String> {
    None
}

fn needs_letters(value: &str) -> Option<String> {
    if value.chars().all(|ch| ch.is_ascii_lowercase()) {
        None
    } else {
        Some("letters only".to_string())
    }
}

fn dialog_spec() -> PromptDialogSpec {
    PromptDialogSpec {
        title: "Title".to_string(),
        detail: None,
        confirm_label: "Go".to_string(),
        confirm_tone: PromptDialogConfirmTone::Destructive,
        input: None,
        selection: Some(PromptDialogSelectionSpec {
            options: vec![
                PromptDialogSelectionOption {
                    label: "A".to_string(),
                    value: "a".to_string(),
                },
                PromptDialogSelectionOption {
                    label: "B".to_string(),
                    value: "b".to_string(),
                },
            ],
            initial_selected: 9,
        }),
        toggles: vec![PromptDialogToggleSpec {
            id: "t".to_string(),
            label: "T".to_string(),
            initial_value: true,
        }],
        on_confirm: PromptDialogAction::Publish {
            scope_root: "/repo".to_string(),
        },
    }
}

fn input_spec(allow_empty: bool) -> PromptDialogSpec {
    PromptDialogSpec {
        input: Some(PromptDialogInputSpec {
            placeholder: "name".to_string(),
            initial_value: String::new(),
            allow_empty,
        }),
        selection: None,
        toggles: Vec::new(),
        ..dialog_spec()
    }
}

#[test]
fn a_dialog_of_options_moves_and_answers() {
    let validate = Some(accepts);
    let mut dialog = PromptDialogOverlay::new(dialog_spec());
    assert_eq!(dialog.selected_option, 1);
    assert!(matches!(
        dialog.handle_key("down", &validate),
        PromptDialogReply::Handled
    ));
    assert_eq!(dialog.selected_option, 1);
    dialog.handle_key("up", &validate);
    dialog.handle_key("up", &validate);
    assert_eq!(dialog.selected_option, 0);
    dialog.select_option(1);
    assert_eq!(dialog.selected_option, 1);
    dialog.select_option(0);
    dialog.flip_toggle("t");
    match dialog.handle_key("enter", &validate) {
        PromptDialogReply::Submitted(result) => {
            assert_eq!(result.selection.as_deref(), Some("a"));
            assert_eq!(result.input, None);
            assert_eq!(
                result.toggles,
                vec![ToggleValue {
                    id: "t".to_string(),
                    value: false
                }]
            );
        }
        other => panic!("unexpected reply {other:?}"),
    }
    assert!(matches!(
        dialog.handle_key("escape", &validate),
        PromptDialogReply::Dismissed
    ));
    assert!(matches!(
        dialog.handle_key("q", &validate),
        PromptDialogReply::Ignored
    ));
}

#[test]
fn a_toggle_reads_what_was_set_and_leaves_the_others() {
    let mut dialog = PromptDialogOverlay::new(dialog_spec());
    dialog.flip_toggle("other");
    assert_eq!(find_toggle(&dialog.toggle_values, "t"), Some(true));
    assert_eq!(find_toggle(&dialog.toggle_values, "other"), Some(true));
    dialog.flip_toggle("t");
    assert_eq!(find_toggle(&dialog.toggle_values, "t"), Some(false));
    assert_eq!(find_toggle(&dialog.toggle_values, "other"), Some(true));
    assert_eq!(find_toggle(&dialog.toggle_values, "missing"), None);
    dialog.flip_toggle("other");
    assert_eq!(dialog.toggle_values.len(), 2);
}

#[test]
fn an_input_is_trimmed_and_validated() {
    let validate = Some(needs_letters);
    let mut dialog = PromptDialogOverlay::new(input_spec(false));
    assert!(dialog.submit(&validate).is_none());
    dialog.input = Some("  Abc ".to_string());
    let message = dialog.validation_message(&validate);
    assert_eq!(message.as_deref(), Some("letters only"));
    assert!(dialog.confirm_disabled(&message));
    dialog.input = Some(" abc ".to_string());
    let result = dialog.submit(&validate).unwrap();
    assert_eq!(result.input.as_deref(), Some("abc"));

    let mut optional = PromptDialogOverlay::new(input_spec(true));
    optional.input = Some("   ".to_string());
    assert_eq!(optional.validation_message(&Some(needs_letters)), None);
    assert_eq!(
        optional.submit(&Some(needs_letters)).unwrap().input.as_deref(),
        Some("")
    );
}

#[test]
fn a_dialog_without_options_cannot_be_confirmed() {
    let mut spec = dialog_spec();
    spec.selection = Some(PromptDialogSelectionSpec {
        options: Vec::new(),
        initial_selected: 0,
    });
    let mut dialog = PromptDialogOverlay::new(spec);
    assert!(matches!(
        dialog.handle_key("enter", &Some(accepts)),
        PromptDialogReply::Handled
    ));
    dialog.move_selection(true);
    assert_eq!(dialog.selected_option, 0);
}

#[test]
fn a_dialog_takes_the_keyboard() {
    let mut with_input = PromptDialogOverlay::new(input_spec(true));
    assert_eq!(with_input.take_focus(false), PromptFocus::Input);
    assert_eq!(with_input.take_focus(false), PromptFocus::Unchanged);
    let mut without = PromptDialogOverlay::new(dialog_spec());
    assert_eq!(without.take_focus(false), PromptFocus::Dialog);
    assert_eq!(without.take_focus(true), PromptFocus::Unchanged);
}

#[test]
fn only_the_first_line_is_pasted() {
    assert_eq!(pasted_line("one\r\ntwo"), Some("one"));
    assert_eq!(pasted_line("one\ntwo"), Some("one"));
    assert_eq!(pasted_line("one\r"), Some("one\r"));
    assert_eq!(pasted_line("\ntwo"), None);
    assert_eq!(pasted_line("\r\n"), None);
    assert_eq!(pasted_line(""), None);
}

#[test]
fn a_drawn_dialog_shows_its_state() {
    let palette = palette();
    let mut dialog = PromptDialogOverlay::new(dialog_spec());
    dialog.flip_toggle("t");
    let panel = render_prompt_dialog(&palette, &dialog, None);
    assert_eq!(panel.toggles[0].mark, '\u{2610}');
    assert_eq!(panel.toggles[0].mark_color, palette.FOG);
    assert_eq!(panel.toggles[0].id, "prompt-dialog-toggle-t");
    assert_eq!(panel.options[1].look.border, palette.ORCA_BLUE);
    assert_eq!(panel.options[0].look.border, palette.BORDER_EMPHASIS);
    assert_eq!(panel.confirm.border, palette.STATUS_CORAL);
    assert!(panel.confirm.clickable && panel.cancel.clickable);
    let empty = PromptDialogOverlay::new(input_spec(false));
    let panel = render_prompt_dialog(&palette, &empty, None);
    assert!(!panel.confirm.clickable);
    assert!(panel.has_input);
}

fn answer(input: Option<&str>, selection: Option<&str>, on: &[&str]) -> PromptDialogResult {
    PromptDialogResult {
        input: input.map(str::to_string),
        selection: selection.map(str::to_string),
        toggles: on
            .iter()
            .map(|id| ToggleValue {
                id: id.to_string(),
                value: true,
            })
            .collect(),
    }
}

#[test]
fn answers_become_commands() {
    let stash = create_stash_prompt_spec("/repo".to_string());
    match confirm_prompt(
        &stash.on_confirm,
        &answer(Some(" wip "), None, &["include_untracked"]),
    ) {
        Some(PromptCommand::CreateStash {
            scope_root,
            message,
            keep_index,
            include_untracked,
        }) => {
            assert_eq!(scope_root, "/repo");
            assert_eq!(message.as_deref(), Some("wip"));
            assert!(!keep_index);
            assert!(include_untracked);
        }
        other => panic!("unexpected command {other:?}"),
    }
    assert!(matches!(
        confirm_prompt(&stash.on_confirm, &answer(Some("  "), None, &[])),
        Some(PromptCommand::CreateStash { message: None, .. })
    ));
    let pop = pop_stash_prompt_spec("/repo".to_string(), "stash@{0}");
    assert!(matches!(
        confirm_prompt(&pop.on_confirm, &answer(None, None, &[])),
        Some(PromptCommand::PopSelectedStash { scope_root }) if scope_root == "/repo"
    ));
    let drop = drop_stash_prompt_spec("/repo".to_string(), "stash@{0}");
    assert!(matches!(drop.confirm_tone, PromptDialogConfirmTone::Destructive));
    assert!(matches!(
        confirm_prompt(&drop.on_confirm, &answer(None, None, &[])),
        Some(PromptCommand::DropSelectedStash { .. })
    ));
}

#[test]
fn publishing_asks_only_where_there_is_a_choice() {
    assert!(matches!(
        publish_step("/repo".to_string(), "main", &Vec::new()),
        PublishStep::WarnNoRemotes(warning)
            if warning == "No git remotes are configured for this repository."
    ));
    assert!(matches!(
        publish_step("/repo".to_string(), "main", &vec!["origin".to_string()]),
        PublishStep::Publish(PromptCommand::Publish { remote_name, .. }) if remote_name == "origin"
    ));
    match publish_step(
        "/repo".to_string(),
        "main",
        &vec!["origin".to_string(), "fork".to_string()],
    ) {
        PublishStep::AskRemote(spec) => {
            assert_eq!(spec.title, "Publish main");
            let command = confirm_prompt(&spec.on_confirm, &answer(None, Some("fork"), &[]));
            assert!(matches!(
                command,
                Some(PromptCommand::Publish { remote_name, .. }) if remote_name == "fork"
            ));
            assert!(confirm_prompt(&spec.on_confirm, &answer(None, None, &[])).is_none());
        }
        other => panic!("unexpected step {other:?}"),
    }
}

fn graph() -> RepositoryGraphDocument {
    RepositoryGraphDocument {
        scope_root: "/repo".to_string(),
        repo_root: "/repo".to_string(),
        head: HeadState::Unborn,
        local_branches: vec![LocalBranchEntry {
            name: "main".to_string(),
            full_ref: "refs/heads/main".to_string(),
            target: Oid { high: 0xABCDEF01, low: 2 },
            is_head: false,
            upstream: None,
        }],
        remote_branches: Vec::new(),
        commits: Vec::new(),
        truncated: false,
    }
}

#[test]
fn branch_prompts_name_their_branch() {
    let create = create_branch_prompt_spec("p", "/repo", &graph(), "main").unwrap();
    assert!(create.detail.as_deref().unwrap().contains("abcdef01"));
    assert!(matches!(
        confirm_prompt(&create.on_confirm, &answer(Some("topic"), None, &[])),
        Some(PromptCommand::CreateRepositoryBranch { source_branch_name, new_branch_name, .. })
            if source_branch_name == "main" && new_branch_name == "topic"
    ));
    assert!(create_branch_prompt_spec("p", "/repo", &graph(), "gone").is_none());
    let delete = delete_branch_prompt_spec("p", "/repo", &graph(), "main");
    assert!(matches!(
        confirm_prompt(&delete.on_confirm, &answer(None, None, &[])),
        Some(PromptCommand::DeleteRepositoryBranch { branch_name, .. }) if branch_name == "main"
    ));
}

fn settings() -> AppSettings {
    AppSettings(AppSettingsInner {
        font_family: "Mono".to_string(),
        scrollback_lines: 10_000,
        cursor_style: CursorStyle::Block,
        cursor_blink: true,
        activity_pulse: true,
        agent_notifications: false,
        notification_urgent_patterns: vec!["error".to_string(), "panic".to_string()],
        resume_agent_sessions: false,
        default_shell: None,
        theme_mode: ThemeMode::System,
        manual_theme: ThemeId::Dark,
        system_light_theme: ThemeId::Light,
        system_dark_theme: ThemeId::Dark,
    })
}

fn plain() -> Modifiers {
    Modifiers {
        control: false,
        alt: false,
        shift: false,
        platform: false,
        function: false,
    }
}

#[test]
fn scrollback_stays_inside_its_limits() {
    let mut settings = settings();
    apply_change(&mut settings, SettingsChange::FewerScrollbackLines);
    assert_eq!(settings.0.scrollback_lines, 9_000);
    settings.0.scrollback_lines = 600;
    apply_change(&mut settings, SettingsChange::FewerScrollbackLines);
    assert_eq!(settings.0.scrollback_lines, 100);
    settings.0.scrollback_lines = 99_500;
    apply_change(&mut settings, SettingsChange::MoreScrollbackLines);
    assert_eq!(settings.0.scrollback_lines, 100_000);
}

#[test]
fn toggling_twice_changes_nothing() {
    for change in [
        SettingsChange::ToggleCursorBlink,
        SettingsChange::ToggleActivityPulse,
        SettingsChange::ToggleAgentNotifications,
        SettingsChange::ToggleResumeAgentSessions,
    ] {
        let mut changed = settings();
        apply_change(&mut changed, change);
        assert_ne!(changed, settings());
        apply_change(&mut changed, change);
        assert_eq!(changed, settings());
    }
}

#[test]
fn a_chosen_option_is_the_selected_one() {
    for row in render_rows(&settings()) {
        for option in render_options(&settings(), row) {
            let mut changed = settings();
            apply_change(&mut changed, option.change);
            let after = render_options(&changed, row);
            assert!(after
                .iter()
                .any(|again| again.change == option.change && again.selected));
        }
    }
}

#[test]
fn themes_of_the_system_are_offered_only_with_it() {
    let mut changed = settings();
    assert!(render_rows(&changed).contains(&SettingsRow::SystemDark));
    apply_change(&mut changed, SettingsChange::ThemeManual(ThemeId::Sepia));
    assert!(!render_rows(&changed).contains(&SettingsRow::SystemDark));
    assert_eq!(changed.0.manual_theme, ThemeId::Sepia);
    assert_eq!(changed.0.theme_mode, ThemeMode::Manual);
    assert_eq!(change_label(SettingsChange::CursorStyle(CursorStyle::Bar)), "Bar");
    assert_eq!(row_label(SettingsRow::FontFamily), "Font Family");
    assert_eq!(
        row_toggle(&settings(), SettingsRow::CursorBlink).map(|toggle| toggle.selected),
        Some(true)
    );
}

#[test]
fn patterns_are_separated_by_commas() {
    assert_eq!(
        parse_patterns(" error , ,fatal failure,"),
        vec!["error", "fatal failure"]
    );
    assert!(parse_patterns("").is_empty());
    assert_eq!(
        field_value(&settings(), EditingField::NotificationUrgentPatterns),
        "error, panic"
    );
    assert_eq!(
        row_field(SettingsRow::DefaultShell),
        Some(EditingField::DefaultShell)
    );
}

#[test]
fn a_field_is_typed_committed_or_given_up() {
    let mut settings = settings();
    let mut view = SettingsView::new();
    assert_eq!(
        view.handle_key_down("escape", &plain(), &None, &mut settings),
        SettingsKeyOutcome::Close
    );
    view.start_edit(EditingField::DefaultShell, "");
    for ch in ["/", "s", "h", "x"] {
        assert_eq!(
            view.handle_key_down(ch, &plain(), &Some(ch.to_string()), &mut settings),
            SettingsKeyOutcome::Edited
        );
    }
    view.handle_key_down("backspace", &plain(), &None, &mut settings);
    assert_eq!(view.edit_buffer, "/sh");
    assert_eq!(
        view.handle_key_down("enter", &plain(), &None, &mut settings),
        SettingsKeyOutcome::Committed
    );
    assert_eq!(settings.0.default_shell.as_deref(), Some("/sh"));

    view.start_edit(EditingField::FontFamily, "Mono");
    view.handle_key_down("space", &plain(), &None, &mut settings);
    assert_eq!(view.edit_buffer, "Mono ");
    assert_eq!(
        view.handle_key_down("escape", &plain(), &None, &mut settings),
        SettingsKeyOutcome::Cancelled
    );
    assert_eq!(settings.0.font_family, "Mono");
}

#[test]
fn an_unchanged_field_survives_an_edit() {
    for field in [
        EditingField::FontFamily,
        EditingField::DefaultShell,
        EditingField::NotificationUrgentPatterns,
    ] {
        let mut changed = settings();
        let mut view = SettingsView::new();
        let value = field_value(&changed, field);
        view.start_edit(field, &value);
        assert!(view.commit_edit(&mut changed));
        assert_eq!(changed, settings());
    }
}

#[test]
fn text_fields_show_what_is_typed_held_or_expected() {
    let palette = palette();
    let typed = text_field_display(&palette, "value", "hint", true, "ab");
    assert!(typed.text.starts_with("ab"));
    let held = text_field_display(&palette, "value", "hint", false, "");
    assert_eq!(held.text, "value");
    let expected = text_field_display(&palette, "", "hint", false, "");
    assert_eq!(expected.text, "hint");
    assert_ne!(held.color, expected.color);
}

#[test]
fn the_settings_are_drawn_row_by_row() {
    let palette = palette();
    let settings = settings();
    let mut view = SettingsView::new();
    view.start_edit(EditingField::FontFamily, "Mono");
    let elements = view.render(&palette, &settings, "13.0", false);
    let rows: Vec<SettingsRow> = elements.iter().map(|element| element.row).collect();
    assert_eq!(rows, render_rows(&settings));
    assert_eq!(elements[0].label.text, "Settings");
    assert_eq!(elements[0].label.color, palette.PATCH);
    assert!(matches!(elements[0].control, SettingsControl::Nothing));
    assert!(matches!(
        &elements[2].control,
        SettingsControl::FontSize { value } if value == "13.0"
    ));
    assert!(matches!(
        &elements[3].control,
        SettingsControl::Field { field: EditingField::FontFamily, display }
            if display.text == "Mono\u{258F}" && display.border == palette.ORCA_BLUE
    ));
    assert!(matches!(
        &elements[4].control,
        SettingsControl::Scrollback {
            fewer: SettingsChange::FewerScrollbackLines,
            value,
            more: SettingsChange::MoreScrollbackLines,
        } if *value == settings.0.scrollback_lines.to_string()
    ));
    match &elements[6].control {
        SettingsControl::Options { options } => {
            let labels: Vec<&str> = options.iter().map(|option| option.label).collect();
            assert_eq!(labels, vec!["Block", "Bar", "Underline"]);
        }
        other => panic!("unexpected control {other:?}"),
    }
    match &elements[7].control {
        SettingsControl::Toggle { change, look } => {
            assert_eq!(*change, SettingsChange::ToggleCursorBlink);
            assert_eq!(look.check_mark.is_some(), settings.0.cursor_blink);
        }
        other => panic!("unexpected control {other:?}"),
    }
    for row in rows {
        assert_eq!(row_steps(row).is_some(), row == SettingsRow::Scrollback);
    }
    assert_eq!(elements.last().unwrap().label.color, palette.SLATE);
    assert_eq!(settings.into_inner().font_family, "Mono");
}
