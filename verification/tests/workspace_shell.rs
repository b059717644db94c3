use orcashell_ui::app_view::{
    content_area, focused_terminal, handle_action, is_update_dismissed, render_update_banner,
    root_layout_path, settings_step, start_banner, start_startup_update_check, start_step,
    window_sort_order, workspace_banner_color, AppAction, AppCommand, AuxiliaryTabKind,
    AvailableUpdate, ContentArea, OrcaAppView, Refocus, SettingsStep, StartStep, UpdateBannerKind,
    UpdateCheckResult, UpdateCheckStep, WindowState, WorkspaceBanner, WorkspaceBannerKind,
};
use orcashell_ui::context_menu::{
    platform_shortcut, render_context_menu, ContextMenuEvent, ContextMenuItem, ContextMenuOverlay,
};
use orcashell_ui::pane::{
    divider_id, pane_id, pane_menu_items, placeholder_text, LayoutContainer, LayoutNode,
    PaneAction, PaneView, SplitDirection, SplitElement,
};
use orcashell_ui::theme::{OrcaTheme, Tint};

type View = OrcaAppView<u32, u32, u32>;

fn palette() -> OrcaTheme {
    OrcaTheme {
        ABYSS: 0x01,
        DEEP: 0x02,
        CURRENT: 0x03,
        SURFACE: 0x04,
        SLATE: 0x05,
        FOG: 0x06,
        BONE: 0x07,
        PATCH: 0x08,
        ORCA_BLUE: 0x09,
        STATUS_GREEN: 0x0A,
        STATUS_AMBER: 0x0B,
        STATUS_CORAL: 0x0C,
        SEAFOAM: 0x0D,
        BORDER_DEFAULT: 0x0E,
        BORDER_EMPHASIS: 0x0F,
    }
}

fn update(latest: &str) -> AvailableUpdate {
    AvailableUpdate {
        current_version: "1.0.0".to_string(),
        latest_version: latest.to_string(),
        download_url: "https://example.test/download".to_string(),
        release_notes_url: None,
    }
}

#[test]
fn a_newer_version_is_announced_and_can_be_dismissed() {
    let mut view = View::new(1);
    assert_eq!(view.window_id(), 1);
    assert_eq!(view.trigger_update_check(false), UpdateCheckStep::Start);
    assert!(view.update_check_in_flight);
    assert!(view.update_banner.is_none());
    view.apply_update_check_result(
        UpdateCheckResult::UpdateAvailable(update("1.2.0")),
        false,
        &None,
    );
    assert!(!view.update_check_in_flight);
    let banner = view.update_banner.as_ref().unwrap();
    assert_eq!(banner.kind, UpdateBannerKind::Available);
    assert_eq!(
        banner.message,
        "OrcaShell 1.2.0 is available. You’re running 1.0.0."
    );

    let stored = view.dismiss_update_banner();
    assert_eq!(stored.as_deref(), Some("1.2.0"));
    assert!(view.update_banner.is_none());

    view.apply_update_check_result(
        UpdateCheckResult::UpdateAvailable(update("1.2.0")),
        false,
        &stored,
    );
    assert!(view.update_banner.is_none());
    view.apply_update_check_result(
        UpdateCheckResult::UpdateAvailable(update("1.3.0")),
        false,
        &stored,
    );
    assert!(view.update_banner.is_some());
    view.apply_update_check_result(
        UpdateCheckResult::UpdateAvailable(update("1.2.0")),
        true,
        &stored,
    );
    assert_eq!(
        view.update_banner.unwrap().latest_version.as_deref(),
        Some("1.2.0")
    );
}

#[test]
fn a_check_that_was_asked_for_tells_every_outcome() {
    let mut view = View::new(1);
    assert_eq!(view.trigger_update_check(true), UpdateCheckStep::Start);
    assert_eq!(
        view.update_banner.as_ref().unwrap().message,
        "Checking for updates…"
    );
    assert_eq!(view.trigger_update_check(true), UpdateCheckStep::Wait);
    assert_eq!(
        view.update_banner.as_ref().unwrap().message,
        "Already checking for updates…"
    );
    view.apply_update_check_result(
        UpdateCheckResult::UpToDate {
            current_version: "1.0.0".to_string(),
        },
        true,
        &None,
    );
    assert_eq!(
        view.update_banner.as_ref().unwrap().message,
        "OrcaShell 1.0.0 is up to date."
    );
    view.apply_update_check_result(
        UpdateCheckResult::Failed {
            message: "offline".to_string(),
        },
        true,
        &None,
    );
    let banner = view.update_banner.as_ref().unwrap();
    assert_eq!(banner.kind, UpdateBannerKind::Error);
    assert_eq!(banner.message, "offline");
    assert_eq!(view.dismiss_update_banner(), None);
}

#[test]
fn other_checks_keep_quiet_about_failures() {
    let mut view = View::new(1);
    view.apply_update_check_result(
        UpdateCheckResult::Failed {
            message: "offline".to_string(),
        },
        false,
        &None,
    );
    assert!(view.update_banner.is_none());
    assert!(is_update_dismissed(&Some("2".to_string()), "2"));
    assert!(!is_update_dismissed(&Some("2".to_string()), "3"));
    assert!(!is_update_dismissed(&None, "3"));
    let mut started = false;
    assert!(start_startup_update_check(&mut started));
    assert!(!start_startup_update_check(&mut started));
}

#[test]
fn an_update_banner_offers_the_pages_it_knows() {
    let palette = palette();
    assert!(render_update_banner(&palette, &None).is_none());
    let mut view = View::new(1);
    let mut found = update("2.0.0");
    found.release_notes_url = Some("https://example.test/notes".to_string());
    view.apply_update_check_result(UpdateCheckResult::UpdateAvailable(found), false, &None);
    let shown = render_update_banner(&palette, &view.update_banner).unwrap();
    let labels: Vec<&str> = shown.buttons.iter().map(|b| b.label.as_str()).collect();
    assert_eq!(labels, vec!["Download", "Release Notes"]);
    assert_eq!(shown.buttons[1].url, "https://example.test/notes");
    assert_eq!(
        shown.look.fill,
        Tint {
            color: palette.ORCA_BLUE,
            alpha: 0x12
        }
    );
    assert_eq!(shown.look.text, palette.PATCH);
    assert_eq!(shown.look.button_fill.alpha, 0x18);
}

#[test]
fn views_of_closed_tabs_are_dropped() {
    let mut view = View::new(1);
    assert_eq!(view.ensure_diff_view("/a", 10), 0);
    assert_eq!(view.ensure_diff_view("/b", 11), 1);
    assert_eq!(view.ensure_diff_view("/a", 12), 0);
    assert_eq!(view.diff_views[0].view, 10);
    assert_eq!(view.ensure_live_diff_view("p", 20), 0);
    assert_eq!(view.ensure_live_diff_view("q", 21), 1);
    let tabs = vec![
        AuxiliaryTabKind::Settings,
        AuxiliaryTabKind::Diff {
            scope_root: "/b".to_string(),
        },
        AuxiliaryTabKind::LiveDiffStream {
            project_id: "p".to_string(),
        },
    ];
    view.prune_closed_diff_views(&tabs);
    view.prune_closed_live_diff_views(&tabs);
    assert_eq!(view.diff_views.len(), 1);
    assert_eq!(view.diff_views[0].key, "/b");
    assert_eq!(view.diff_views[0].view, 11);
    assert_eq!(view.live_diff_views.len(), 1);
    assert_eq!(view.live_diff_views[0].key, "p");
}

#[test]
fn actions_of_the_window() {
    assert_eq!(
        handle_action(AppAction::SplitRight, false),
        (
            AppCommand::SplitFocused(SplitDirection::Vertical),
            Refocus::Always
        )
    );
    assert_eq!(
        handle_action(AppAction::SplitDown, true),
        (
            AppCommand::SplitFocused(SplitDirection::Horizontal),
            Refocus::Always
        )
    );
    assert_eq!(
        handle_action(AppAction::ClosePane, true).0,
        AppCommand::CloseAuxiliaryTab
    );
    assert_eq!(
        handle_action(AppAction::ClosePane, false).0,
        AppCommand::CloseFocused
    );
    assert_eq!(
        handle_action(AppAction::CloseTab, false).0,
        AppCommand::CloseTab
    );
    assert_eq!(
        handle_action(AppAction::ToggleSettings, false),
        (AppCommand::ToggleSettings, Refocus::UnlessSettings)
    );
    assert_eq!(
        handle_action(AppAction::GotoTab(9), false),
        (AppCommand::GotoTab(8), Refocus::Always)
    );
    assert_eq!(
        handle_action(AppAction::GotoTab(0), false),
        (AppCommand::Nothing, Refocus::Never)
    );
    assert_eq!(
        handle_action(AppAction::AddProject, false),
        (AppCommand::PickFolder, Refocus::Never)
    );
}

#[test]
fn the_window_shows_the_active_tab() {
    assert!(matches!(content_area(None), ContentArea::Layout));
    assert!(matches!(
        content_area(Some(&AuxiliaryTabKind::Settings)),
        ContentArea::Settings
    ));
    assert!(matches!(
        content_area(Some(&AuxiliaryTabKind::Diff { scope_root: "/r".to_string() })),
        ContentArea::Diff { scope_root } if scope_root == "/r"
    ));
    assert_eq!(settings_step(true, false), SettingsStep::Focus);
    assert_eq!(settings_step(false, true), SettingsStep::ResetEdit);
    assert_eq!(settings_step(false, false), SettingsStep::Nothing);
    assert_eq!(root_layout_path(Some(3)), vec![3]);
    assert_eq!(root_layout_path(None), vec![0]);
    assert_eq!(
        workspace_banner_color(&palette(), WorkspaceBannerKind::Warning),
        palette().STATUS_AMBER
    );
    assert_eq!(window_sort_order(1), 0);
    assert_eq!(window_sort_order((1 << 32) + 5), 4);
}

#[test]
fn a_window_begins_with_its_projects_or_in_a_directory() {
    assert!(matches!(start_step(true, None, None), StartStep::Restore));
    assert!(matches!(
        start_step(false, Some("/asked".to_string()), Some("/cwd".to_string())),
        StartStep::InitProject { directory } if directory == "/asked"
    ));
    assert!(matches!(
        start_step(false, None, Some("/cwd".to_string())),
        StartStep::InitProject { directory } if directory == "/cwd"
    ));
    assert!(matches!(
        start_step(false, None, None),
        StartStep::InitProject { directory } if directory == "/"
    ));
    assert_eq!(
        start_banner(Some("no daemon".to_string())).unwrap().message,
        "no daemon"
    );
    assert!(start_banner(None).is_none());
}

#[test]
fn the_focused_terminal_falls_back_to_the_first() {
    let first = LayoutNode::Terminal {
        terminal_id: Some("t1".to_string()),
    };
    let second = LayoutNode::Terminal {
        terminal_id: Some("t2".to_string()),
    };
    let both = vec!["t1".to_string(), "t2".to_string()];
    let one = vec!["t1".to_string()];
    assert_eq!(
        focused_terminal(Some(&second), Some(&first), &both),
        Some("t2")
    );
    assert_eq!(
        focused_terminal(Some(&second), Some(&first), &one),
        Some("t1")
    );
    assert_eq!(focused_terminal(Some(&second), None, &one), None);
}

#[test]
fn context_menus_run_enabled_items_only() {
    let items = vec![
        ContextMenuItem {
            label: "Open".to_string(),
            shortcut: Some(platform_shortcut("\u{2318}O", "Ctrl+O", false)),
            enabled: true,
            action: 1u32,
        },
        ContextMenuItem {
            label: "Gone".to_string(),
            shortcut: None,
            enabled: false,
            action: 2u32,
        },
    ];
    let menu = ContextMenuOverlay::new(items);
    assert_eq!(menu.click_item(0), Some((&1, ContextMenuEvent::Dismiss)));
    assert_eq!(menu.click_item(1), None);
    assert_eq!(menu.click_item(2), None);
    let palette = palette();
    let rows = render_context_menu(&palette, &menu);
    assert_eq!(rows[0].shortcut.as_deref(), Some("Ctrl+O"));
    assert_eq!(rows[0].text, palette.BONE);
    assert_eq!(rows[1].text, palette.SLATE);
    assert!(!rows[1].clickable);

    let mut view = OrcaAppView::<u32, u32, u32>::new(1);
    view.take_menu_request(Some(menu.items));
    assert!(view.context_menu.is_some());
    view.take_menu_request(None);
    assert!(view.context_menu.is_some());
    view.handle_menu_event(ContextMenuEvent::Dismiss);
    assert!(view.context_menu.is_none());
}

#[test]
fn containers_follow_their_layout() {
    let mut container = LayoutContainer::new(vec![0]);
    let split = LayoutNode::Split {
        direction: SplitDirection::Horizontal,
        child_count: 3,
    };
    match container.render(Some(&split), false) {
        PaneView::Split {
            below_each_other,
            elements,
        } => {
            assert!(below_each_other);
            assert_eq!(
                elements,
                vec![
                    SplitElement::Child { index: 0 },
                    SplitElement::Divider { left: 0, right: 1 },
                    SplitElement::Child { index: 1 },
                    SplitElement::Divider { left: 1, right: 2 },
                    SplitElement::Child { index: 2 },
                ]
            );
        }
        other => panic!("unexpected view {other:?}"),
    }
    assert_eq!(
        container.child_containers,
        vec![vec![0, 0], vec![0, 1], vec![0, 2]]
    );
    assert!(!container.ensure_child_container(vec![0, 1]));
    container.retain_valid_children(2);
    assert_eq!(container.child_containers, vec![vec![0, 0], vec![0, 1]]);

    let tabs = LayoutNode::Tabs {
        child_count: 2,
        active_tab: 7,
    };
    assert!(matches!(
        container.render(Some(&tabs), false),
        PaneView::Tab { index: 1 }
    ));

    assert_eq!(container.child_containers, vec![vec![0, 0], vec![0, 1]]);

    container.set_layout_path(vec![0]);
    assert_eq!(container.child_containers.len(), 2);
    container.set_layout_path(vec![1]);
    assert!(container.child_containers.is_empty());
}

#[test]
fn terminals_and_missing_layouts_have_no_children() {
    let mut container = LayoutContainer::new(vec![0]);
    assert!(container.ensure_child_container(vec![0, 4]));
    let terminal = LayoutNode::Terminal {
        terminal_id: Some("t1".to_string()),
    };
    let view = container.render(Some(&terminal), true);
    assert!(matches!(&view, PaneView::Terminal { terminal_id } if terminal_id == "t1"));
    assert_eq!(placeholder_text(&view), None);
    assert!(container.child_containers.is_empty());
    let view = container.render(Some(&terminal), false);
    assert_eq!(placeholder_text(&view), Some("Starting terminal..."));
    let view = container.render(None, false);
    assert_eq!(placeholder_text(&view), Some("No layout"));
}

#[test]
fn panes_have_identities_and_a_menu() {
    assert_eq!(pane_id("p", &vec![0, 12]), "pane-p-[0, 12]");
    assert_eq!(pane_id("p", &Vec::new()), "pane-p-[]");
    assert_eq!(divider_id("p", &vec![3], 1, 2), "divider-p-[3]-1-2");
    let items = pane_menu_items(true);
    assert_eq!(items.len(), 4);
    assert_eq!(items[1].label, "Split Down");
    assert_eq!(items[1].shortcut.as_deref(), Some("\u{2318}\u{21E7}D"));
    assert_eq!(
        items[1].action,
        PaneAction::SplitFocused(SplitDirection::Horizontal)
    );
    assert_eq!(
        pane_menu_items(false)[3].shortcut.as_deref(),
        Some("Ctrl+Shift+W")
    );
}

#[test]
fn a_frame_of_the_window() {
    let palette = palette();
    let mut view = View::new(1);
    view.ensure_diff_view("/a", 10);
    view.ensure_diff_view("/b", 11);
    view.ensure_live_diff_view("p", 20);
    let mut state = WindowState {
        tabs: vec![AuxiliaryTabKind::Diff {
            scope_root: "/b".to_string(),
        }],
        active_tab: Some(AuxiliaryTabKind::Diff {
            scope_root: "/b".to_string(),
        }),
        active_tab_index: Some(2),
        settings_focused: false,
        has_settings_view: true,
        pending_focus: Some("t1".to_string()),
        terminal_views: vec!["t0".to_string(), "t1".to_string()],
        banner: Some(WorkspaceBanner {
            kind: WorkspaceBannerKind::Error,
            message: "gone".to_string(),
        }),
    };
    let frame = view.render(&palette, &state, Some(Vec::new()));
    assert_eq!(view.diff_views.len(), 1);
    assert_eq!(view.diff_views[0].view, 11);
    assert!(view.live_diff_views.is_empty());
    assert!(view.context_menu.is_some());
    assert_eq!(frame.focus_terminal.as_deref(), Some("t1"));
    assert_eq!(frame.settings, SettingsStep::ResetEdit);
    assert_eq!(frame.layout_path, vec![2]);
    assert_eq!(frame.workspace_banner.unwrap().color, palette.STATUS_CORAL);
    assert!(frame.update_banner.is_none());
    assert!(matches!(frame.content, ContentArea::Diff { scope_root } if scope_root == "/b"));
    state.pending_focus = Some("t9".to_string());
    state.active_tab = None;
    state.active_tab_index = None;
    state.settings_focused = true;
    state.banner = None;
    let frame = view.render(&palette, &state, None);
    assert!(view.context_menu.is_some());
    assert_eq!(frame.focus_terminal, None);
    assert_eq!(frame.settings, SettingsStep::Focus);
    assert_eq!(frame.layout_path, vec![0]);
    assert!(frame.workspace_banner.is_none());
    assert!(matches!(frame.content, ContentArea::Layout));
}
