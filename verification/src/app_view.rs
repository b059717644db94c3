//! The window: which view it shows, its banners, the check for updates and what its actions do.

use crate::context_menu::{ContextMenuEvent, ContextMenuItem, ContextMenuOverlay};
use crate::pane::{LayoutNode, SplitDirection};
use crate::strings;
use crate::theme::{OrcaTheme, Tint};
use crate::widgets;
use crate::widgets::ColoredText;
use vstd::prelude::*;
use vstd::string::*;

verus! {

/// What an update banner tells.
#[derive(Clone, Copy, Debug, PartialEq, Eq, Structural)]
pub enum UpdateBannerKind {
    Available,
    Info,
    Error,
}

/// The banner of the check for updates.
#[derive(Debug, PartialEq, Eq)]
pub struct UpdateBannerState {
    pub kind: UpdateBannerKind,
    pub message: String,
    pub latest_version: Option<String>,
    pub download_url: Option<String>,
    pub release_notes_url: Option<String>,
}

/// A newer version.
#[derive(Debug)]
pub struct AvailableUpdate {
    pub current_version: String,
    pub latest_version: String,
    pub download_url: String,
    pub release_notes_url: Option<String>,
}

/// What a check for updates found.
#[derive(Debug)]
pub enum UpdateCheckResult {
    UpdateAvailable(AvailableUpdate),
    UpToDate { current_version: String },
    Failed { message: String },
}

/// The banner says this, and offers nothing.
pub open spec fn is_notice(
    banner: Option<UpdateBannerState>,
    kind: UpdateBannerKind,
    message: Seq<char>,
) -> bool {
    &&& banner matches Some(banner)
    &&& banner.kind == kind
    &&& banner.message@ == message
    &&& banner.latest_version is None
    &&& banner.download_url is None
    &&& banner.release_notes_url is None
}

/// The banner announces this version.
pub open spec fn announces(banner: UpdateBannerState, update: AvailableUpdate) -> bool {
    &&& banner.kind == UpdateBannerKind::Available
    &&& banner.message@ == "OrcaShell "@ + update.latest_version@
        + " is available. You\u{2019}re running "@ + update.current_version@ + "."@
    &&& strings::optional_view(banner.latest_version) == Some(update.latest_version@)
    &&& strings::optional_view(banner.download_url) == Some(update.download_url@)
    &&& strings::optional_view(banner.release_notes_url) == strings::optional_view(
        update.release_notes_url,
    )
}

fn notice(kind: UpdateBannerKind, message: String) -> (banner: UpdateBannerState)
    ensures
        is_notice(Some(banner), kind, message@),
{
    UpdateBannerState {
        kind,
        message,
        latest_version: None,
        download_url: None,
        release_notes_url: None,
    }
}

/// The banner of a newer version.
pub fn available_update_banner(update: AvailableUpdate) -> (banner: UpdateBannerState)
    ensures
        announces(banner, update),
{
    let mut message = strings::concat_text("OrcaShell ", update.latest_version.as_str());
    message.append(" is available. You\u{2019}re running ");
    message.append(update.current_version.as_str());
    message.append(".");
    UpdateBannerState {
        kind: UpdateBannerKind::Available,
        message,
        latest_version: Some(update.latest_version),
        download_url: Some(update.download_url),
        release_notes_url: update.release_notes_url,
    }
}

/// Whether a version is the one that was dismissed. Where nothing was stored, none was.
pub fn is_update_dismissed(stored: &Option<String>, latest_version: &str) -> (dismissed: bool)
    ensures
        dismissed == (strings::optional_view(*stored) == Some(latest_version@)),
{
    match stored {
        Some(stored) => strings::same_text(stored.as_str(), latest_version),
        None => false,
    }
}

/// Whether the check at the start of the program runs: once, for the first window.
pub fn start_startup_update_check(started: &mut bool) -> (runs: bool)
    ensures
        *final(started),
        runs == !*old(started),
{
    let runs = !*started;
    *started = true;
    runs
}

/// An open tab beside the terminals.
#[derive(Debug)]
pub enum AuxiliaryTabKind {
    Settings,
    Diff { scope_root: String },
    LiveDiffStream { project_id: String },
}

/// A view and what it shows.
#[derive(Debug)]
pub struct ViewSlot<V> {
    pub key: String,
    pub view: V,
}

/// The window. `D` is a diff view, `L` a live feed and `A` what an item of a menu does.
#[derive(Debug)]
pub struct OrcaAppView<D, L, A> {
    pub window_id: i64,
    pub context_menu: Option<ContextMenuOverlay<A>>,
    pub diff_views: Vec<ViewSlot<D>>,
    pub live_diff_views: Vec<ViewSlot<L>>,
    pub update_banner: Option<UpdateBannerState>,
    pub update_check_in_flight: bool,
}

/// The repositories whose diff tabs are open.
pub open spec fn open_diff_scopes(tabs: Seq<AuxiliaryTabKind>) -> Set<Seq<char>> {
    Set::new(
        |scope: Seq<char>|
            exists|i: int|
                0 <= i < tabs.len() && (#[trigger] tabs[i] matches AuxiliaryTabKind::Diff {
                    scope_root,
                } && scope_root@ == scope),
    )
}

/// The projects whose feeds are open.
pub open spec fn open_projects(tabs: Seq<AuxiliaryTabKind>) -> Set<Seq<char>> {
    Set::new(
        |project: Seq<char>|
            exists|i: int|
                0 <= i < tabs.len() && (#[trigger] tabs[i] matches AuxiliaryTabKind::LiveDiffStream {
                    project_id,
                } && project_id@ == project),
    )
}

fn diff_tab_is_open(tabs: &Vec<AuxiliaryTabKind>, scope: &str) -> (open: bool)
    ensures
        open == open_diff_scopes(tabs@).contains(scope@),
{
    let mut i: usize = 0;
    while i < tabs.len()
        invariant
            i <= tabs@.len(),
            forall|k: int|
                0 <= k < i ==> !(#[trigger] tabs@[k] matches AuxiliaryTabKind::Diff { scope_root }
                    && scope_root@ == scope@),
        decreases tabs@.len() - i,
    {
        if let AuxiliaryTabKind::Diff { scope_root } = &tabs[i] {
            if strings::same_text(scope_root.as_str(), scope) {
                assert(tabs@[i as int] matches AuxiliaryTabKind::Diff { scope_root } && scope_root@
                    == scope@);
                return true;
            }
        }
        i = i + 1;
    }
    false
}

fn feed_is_open(tabs: &Vec<AuxiliaryTabKind>, project: &str) -> (open: bool)
    ensures
        open == open_projects(tabs@).contains(project@),
{
    let mut i: usize = 0;
    while i < tabs.len()
        invariant
            i <= tabs@.len(),
            forall|k: int|
                0 <= k < i ==> !(#[trigger] tabs@[k] matches AuxiliaryTabKind::LiveDiffStream {
                    project_id,
                } && project_id@ == project@),
        decreases tabs@.len() - i,
    {
        if let AuxiliaryTabKind::LiveDiffStream { project_id } = &tabs[i] {
            if strings::same_text(project_id.as_str(), project) {
                assert(tabs@[i as int] matches AuxiliaryTabKind::LiveDiffStream { project_id }
                    && project_id@ == project@);
                return true;
            }
        }
        i = i + 1;
    }
    false
}

/// The first view with a key.
pub open spec fn view_with_key<V>(views: Seq<ViewSlot<V>>, key: Seq<char>) -> Option<int>
    decreases views.len(),
{
    if views.len() == 0 {
        None
    } else {
        match view_with_key(views.drop_last(), key) {
            Some(index) => Some(index),
            None => if views.last().key@ == key {
                Some(views.len() - 1)
            } else {
                None
            },
        }
    }
}

proof fn lemma_view_prefix<V>(views: Seq<ViewSlot<V>>, key: Seq<char>, count: int)
    requires
        0 <= count <= views.len(),
        view_with_key(views.take(count), key) is Some,
    ensures
        view_with_key(views, key) == view_with_key(views.take(count), key),
    decreases views.len(),
{
    if count < views.len() {
        assert(views.drop_last().take(count) =~= views.take(count));
        lemma_view_prefix(views.drop_last(), key, count);
    } else {
        assert(views.take(count) =~= views);
    }
}

/// Finds the view with a key.
pub fn find_view<V>(views: &Vec<ViewSlot<V>>, key: &str) -> (index: Option<usize>)
    ensures
        match index {
            Some(index) => index < views@.len() && view_with_key(views@, key@) == Some(
                index as int,
            ),
            None => view_with_key(views@, key@) is None,
        },
{
    let mut i: usize = 0;
    assert(views@.take(0) =~= Seq::<ViewSlot<V>>::empty());
    while i < views.len()
        invariant
            i <= views@.len(),
            view_with_key(views@.take(i as int), key@) is None,
        decreases views@.len() - i,
    {
        assert(views@.take(i + 1).drop_last() =~= views@.take(i as int));
        if strings::same_text(views[i].key.as_str(), key) {
            proof {
                assert(view_with_key(views@.take(i + 1), key@) == Some(i as int));
                lemma_view_prefix(views@, key@, i + 1);
            }
            return Some(i);
        }
        i = i + 1;
    }
    assert(views@.take(i as int) =~= views@);
    None
}

/// What the window does about a check for updates.
#[derive(Clone, Copy, Debug, PartialEq, Eq, Structural)]
pub enum UpdateCheckStep {
    /// A check starts.
    Start,
    /// One is under way already.
    Wait,
}

impl<D, L, A> OrcaAppView<D, L, A> {
    /// A window that shows nothing yet.
    pub fn new(window_id: i64) -> (view: Self)
        ensures
            view.window_id == window_id,
            view.context_menu is None,
            view.diff_views@.len() == 0,
            view.live_diff_views@.len() == 0,
            view.update_banner is None,
            !view.update_check_in_flight,
    {
        OrcaAppView {
            window_id,
            context_menu: None,
            diff_views: Vec::new(),
            live_diff_views: Vec::new(),
            update_banner: None,
            update_check_in_flight: false,
        }
    }

    /// The number of the window.
    pub fn window_id(&self) -> (id: i64)
        ensures
            id == self.window_id,
    {
        self.window_id
    }

    /// Starts a check for updates, unless one is under way. Only a check that was asked for says
    /// so in the banner.
    pub fn trigger_update_check(&mut self, manual: bool) -> (step: UpdateCheckStep)
        ensures
            step == if old(self).update_check_in_flight {
                UpdateCheckStep::Wait
            } else {
                UpdateCheckStep::Start
            },
            manual ==> is_notice(
                final(self).update_banner,
                UpdateBannerKind::Info,
                if old(self).update_check_in_flight {
                    "Already checking for updates\u{2026}"@
                } else {
                    "Checking for updates\u{2026}"@
                },
            ),
            !manual ==> final(self).update_banner == old(self).update_banner,
            *final(self) == (OrcaAppView {
                update_banner: final(self).update_banner,
                update_check_in_flight: true,
                ..*old(self)
            }),
    {
        let in_flight = self.update_check_in_flight;
        if manual {
            let message = if in_flight {
                "Already checking for updates\u{2026}"
            } else {
                "Checking for updates\u{2026}"
            };
            self.update_banner = Some(notice(UpdateBannerKind::Info, message.to_owned()));
        }
        self.update_check_in_flight = true;
        if in_flight {
            UpdateCheckStep::Wait
        } else {
            UpdateCheckStep::Start
        }
    }

    /// Takes in what a check for updates found. A newer version is announced, unless it was
    /// dismissed and the check was not asked for; the other outcomes are told only of a check that
    /// was asked for.
    pub fn apply_update_check_result(
        &mut self,
        result: UpdateCheckResult,
        manual: bool,
        dismissed_version: &Option<String>,
    )
        ensures
            match result {
                UpdateCheckResult::UpdateAvailable(update) => if !manual && strings::optional_view(
                    *dismissed_version,
                ) == Some(update.latest_version@) {
                    final(self).update_banner is None
                } else {
                    final(self).update_banner is Some && announces(
                        final(self).update_banner->0,
                        update,
                    )
                },
                UpdateCheckResult::UpToDate { current_version } => if manual {
                    is_notice(
                        final(self).update_banner,
                        UpdateBannerKind::Info,
                        "OrcaShell "@ + current_version@ + " is up to date."@,
                    )
                } else {
                    final(self).update_banner == old(self).update_banner
                },
                UpdateCheckResult::Failed { message } => if manual {
                    is_notice(final(self).update_banner, UpdateBannerKind::Error, message@)
                } else {
                    final(self).update_banner == old(self).update_banner
                },
            },
            *final(self) == (OrcaAppView {
                update_banner: final(self).update_banner,
                update_check_in_flight: false,
                ..*old(self)
            }),
    {
        self.update_check_in_flight = false;
        match result {
            UpdateCheckResult::UpdateAvailable(update) => {
                if !manual && is_update_dismissed(
                    dismissed_version,
                    update.latest_version.as_str(),
                ) {
                    self.update_banner = None;
                } else {
                    self.update_banner = Some(available_update_banner(update));
                }
            },
            UpdateCheckResult::UpToDate { current_version } => {
                if manual {
                    let mut message = strings::concat_text("OrcaShell ", current_version.as_str());
                    message.append(" is up to date.");
                    self.update_banner = Some(notice(UpdateBannerKind::Info, message));
                }
            },
            UpdateCheckResult::Failed { message } => {
                if manual {
                    self.update_banner = Some(notice(UpdateBannerKind::Error, message));
                }
            },
        }
    }

    /// Closes the update banner. The version that it announced, if it did, is to be remembered as
    /// dismissed.
    pub fn dismiss_update_banner(&mut self) -> (dismissed: Option<String>)
        ensures
            strings::optional_view(dismissed) == match old(self).update_banner {
                Some(banner) => strings::optional_view(banner.latest_version),
                None => None,
            },
            *final(self) == (OrcaAppView { update_banner: None, ..*old(self) }),
    {
        match self.update_banner.take() {
            Some(banner) => banner.latest_version,
            None => None,
        }
    }

    /// Drops the diff views whose tabs were closed.
    pub fn prune_closed_diff_views(&mut self, tabs: &Vec<AuxiliaryTabKind>)
        ensures
            final(self).diff_views@ == old(self).diff_views@.filter(
                |slot: ViewSlot<D>| open_diff_scopes(tabs@).contains(slot.key@),
            ),
            *final(self) == (OrcaAppView { diff_views: final(self).diff_views, ..*old(self) }),
    {
        let ghost all = self.diff_views@;
        let ghost open = |slot: ViewSlot<D>| open_diff_scopes(tabs@).contains(slot.key@);
        let ghost mut done: int = 0;
        let mut i: usize = 0;
        proof {
            reveal(Seq::filter);
        }
        assert(all =~= all.take(0).filter(open) + all.skip(0));
        while i < self.diff_views.len()
            invariant
                0 <= done <= all.len(),
                all == old(self).diff_views@,
                open == (|slot: ViewSlot<D>| open_diff_scopes(tabs@).contains(slot.key@)),
                i == all.take(done).filter(open).len(),
                self.diff_views@ == all.take(done).filter(open) + all.skip(done),
                *self == (OrcaAppView { diff_views: self.diff_views, ..*old(self) }),
            decreases all.len() - done,
        {
            let ghost kept = all.take(done).filter(open);
            assert(self.diff_views@[i as int] == all[done]);
            let is_open = diff_tab_is_open(tabs, self.diff_views[i].key.as_str());
            proof {
                all.take(done).lemma_filter_push(all[done], open);
                assert(all.take(done + 1) =~= all.take(done).push(all[done]));
            }
            if is_open {
                assert(kept + all.skip(done) =~= kept.push(all[done]) + all.skip(done + 1));
                i = i + 1;
            } else {
                self.diff_views.remove(i);
                assert(self.diff_views@ =~= kept + all.skip(done + 1));
            }
            proof {
                done = done + 1;
            }
        }
        assert(all.take(done) =~= all);
        assert(self.diff_views@ =~= all.filter(open));
    }

    /// Drops the live feeds whose tabs were closed.
    pub fn prune_closed_live_diff_views(&mut self, tabs: &Vec<AuxiliaryTabKind>)
        ensures
            final(self).live_diff_views@ == old(self).live_diff_views@.filter(
                |slot: ViewSlot<L>| open_projects(tabs@).contains(slot.key@),
            ),
            *final(self) == (OrcaAppView {
                live_diff_views: final(self).live_diff_views,
                ..*old(self)
            }),
    {
        let ghost all = self.live_diff_views@;
        let ghost open = |slot: ViewSlot<L>| open_projects(tabs@).contains(slot.key@);
        let ghost mut done: int = 0;
        let mut i: usize = 0;
        proof {
            reveal(Seq::filter);
        }
        assert(all =~= all.take(0).filter(open) + all.skip(0));
        while i < self.live_diff_views.len()
            invariant
                0 <= done <= all.len(),
                all == old(self).live_diff_views@,
                open == (|slot: ViewSlot<L>| open_projects(tabs@).contains(slot.key@)),
                i == all.take(done).filter(open).len(),
                self.live_diff_views@ == all.take(done).filter(open) + all.skip(done),
                *self == (OrcaAppView { live_diff_views: self.live_diff_views, ..*old(self) }),
            decreases all.len() - done,
        {
            let ghost kept = all.take(done).filter(open);
            assert(self.live_diff_views@[i as int] == all[done]);
            let is_open = feed_is_open(tabs, self.live_diff_views[i].key.as_str());
            proof {
                all.take(done).lemma_filter_push(all[done], open);
                assert(all.take(done + 1) =~= all.take(done).push(all[done]));
            }
            if is_open {
                assert(kept + all.skip(done) =~= kept.push(all[done]) + all.skip(done + 1));
                i = i + 1;
            } else {
                self.live_diff_views.remove(i);
                assert(self.live_diff_views@ =~= kept + all.skip(done + 1));
            }
            proof {
                done = done + 1;
            }
        }
        assert(all.take(done) =~= all);
        assert(self.live_diff_views@ =~= all.filter(open));
    }

    /// The diff view of a repository. A made one is kept where there is none yet.
    pub fn ensure_diff_view(&mut self, scope_root: &str, made: D) -> (index: usize)
        ensures
            match view_with_key(old(self).diff_views@, scope_root@) {
                Some(found) => index == found && final(self).diff_views@ == old(self).diff_views@,
                None => index == old(self).diff_views@.len() && final(self).diff_views@.len()
                    == index + 1 && final(self).diff_views@.drop_last() == old(self).diff_views@
                    && final(self).diff_views@.last().key@ == scope_root@
                    && final(self).diff_views@.last().view == made,
            },
            *final(self) == (OrcaAppView { diff_views: final(self).diff_views, ..*old(self) }),
    {
        match find_view(&self.diff_views, scope_root) {
            Some(index) => index,
            None => {
                let index = self.diff_views.len();
                self.diff_views.push(ViewSlot { key: scope_root.to_owned(), view: made });
                assert(self.diff_views@.drop_last() =~= old(self).diff_views@);
                index
            },
        }
    }

    /// The live feed of a project. A made one is kept where there is none yet.
    pub fn ensure_live_diff_view(&mut self, project_id: &str, made: L) -> (index: usize)
        ensures
            match view_with_key(old(self).live_diff_views@, project_id@) {
                Some(found) => index == found && final(self).live_diff_views@
                    == old(self).live_diff_views@,
                None => index == old(self).live_diff_views@.len()
                    && final(self).live_diff_views@.len() == index + 1
                    && final(self).live_diff_views@.drop_last() == old(self).live_diff_views@
                    && final(self).live_diff_views@.last().key@ == project_id@
                    && final(self).live_diff_views@.last().view == made,
            },
            *final(self) == (OrcaAppView {
                live_diff_views: final(self).live_diff_views,
                ..*old(self)
            }),
    {
        match find_view(&self.live_diff_views, project_id) {
            Some(index) => index,
            None => {
                let index = self.live_diff_views.len();
                self.live_diff_views.push(ViewSlot { key: project_id.to_owned(), view: made });
                assert(self.live_diff_views@.drop_last() =~= old(self).live_diff_views@);
                index
            },
        }
    }

    /// Opens a menu that was asked for. An open menu gives way to it.
    pub fn take_menu_request(&mut self, request: Option<Vec<ContextMenuItem<A>>>)
        ensures
            match request {
                Some(items) => final(self).context_menu == Some(ContextMenuOverlay { items }),
                None => final(self).context_menu == old(self).context_menu,
            },
            *final(self) == (OrcaAppView { context_menu: final(self).context_menu, ..*old(self) }),
    {
        if let Some(items) = request {
            self.context_menu = Some(ContextMenuOverlay::new(items));
        }
    }

    /// What the menu reported.
    pub fn handle_menu_event(&mut self, event: ContextMenuEvent)
        ensures
            *final(self) == (OrcaAppView { context_menu: None, ..*old(self) }),
    {
        match event {
            ContextMenuEvent::Dismiss => {
                self.context_menu = None;
            },
        }
    }
}

/// What the window shows beside its sidebar.
#[derive(Debug)]
pub enum ContentArea {
    Settings,
    Diff { scope_root: String },
    LiveDiffStream { project_id: String },
    Layout,
}

/// The window shows the view of the active tab beside the terminals, or the layout.
pub open spec fn shows_content(content: ContentArea, active: Option<&AuxiliaryTabKind>) -> bool {
    match active {
        Some(AuxiliaryTabKind::Settings) => content is Settings,
        Some(AuxiliaryTabKind::Diff { scope_root }) => content matches ContentArea::Diff {
            scope_root: shown,
        } && shown@ == scope_root@,
        Some(AuxiliaryTabKind::LiveDiffStream { project_id }) => content
            matches ContentArea::LiveDiffStream { project_id: shown } && shown@ == project_id@,
        None => content is Layout,
    }
}

/// The view that the window shows.
pub fn content_area(active: Option<&AuxiliaryTabKind>) -> (content: ContentArea)
    ensures
        shows_content(content, active),
{
    match active {
        Some(AuxiliaryTabKind::Settings) => ContentArea::Settings,
        Some(AuxiliaryTabKind::Diff { scope_root }) => ContentArea::Diff {
            scope_root: scope_root.clone(),
        },
        Some(AuxiliaryTabKind::LiveDiffStream { project_id }) => ContentArea::LiveDiffStream {
            project_id: project_id.clone(),
        },
        None => ContentArea::Layout,
    }
}

/// What happens to the settings when the window is drawn.
#[derive(Clone, Copy, Debug, PartialEq, Eq, Structural)]
pub enum SettingsStep {
    /// They take the keyboard.
    Focus,
    /// An edit in progress is dropped.
    ResetEdit,
    Nothing,
}

/// What happens to the settings when the window is drawn.
pub open spec fn step_of_settings(settings_focused: bool, has_view: bool) -> SettingsStep {
    if settings_focused {
        SettingsStep::Focus
    } else if has_view {
        SettingsStep::ResetEdit
    } else {
        SettingsStep::Nothing
    }
}

/// What happens to the settings when the window is drawn.
pub fn settings_step(settings_focused: bool, has_view: bool) -> (step: SettingsStep)
    ensures
        step == step_of_settings(settings_focused, has_view),
{
    if settings_focused {
        SettingsStep::Focus
    } else if has_view {
        SettingsStep::ResetEdit
    } else {
        SettingsStep::Nothing
    }
}

/// The path of the layout that the window shows: that of the active tab.
pub open spec fn tab_path(active_tab: Option<usize>) -> Seq<usize> {
    match active_tab {
        Some(index) => seq![index],
        None => seq![0usize],
    }
}

/// The path of the layout that the window shows.
pub fn root_layout_path(active_tab: Option<usize>) -> (path: Vec<usize>)
    ensures
        path@ == tab_path(active_tab),
{
    let mut path: Vec<usize> = Vec::new();
    path.push(
        match active_tab {
            Some(index) => index,
            None => 0,
        },
    );
    assert(path@ =~= tab_path(active_tab));
    path
}

/// An action of the window.
#[derive(Clone, Copy, Debug, PartialEq, Eq, Structural)]
pub enum AppAction {
    SplitRight,
    SplitDown,
    NewTab,
    ClosePane,
    FocusNextPane,
    FocusPrevPane,
    NextTab,
    PrevTab,
    ToggleSidebar,
    AddProject,
    CloseTab,
    ToggleSettings,
    CheckForUpdates,
    /// Goes to a tab, counted from one.
    GotoTab(usize),
}

/// What an action asks for.
#[derive(Clone, Copy, Debug, PartialEq, Eq, Structural)]
pub enum AppCommand {
    SplitFocused(SplitDirection),
    NewTab,
    CloseFocused,
    CloseTab,
    CloseAuxiliaryTab,
    FocusNextPane,
    FocusPrevPane,
    NextTab,
    PrevTab,
    GotoTab(usize),
    ToggleSidebar,
    PickFolder,
    ToggleSettings,
    CheckForUpdates,
    Nothing,
}

/// When the focused terminal takes the keyboard after an action.
#[derive(Clone, Copy, Debug, PartialEq, Eq, Structural)]
pub enum Refocus {
    Always,
    UnlessSettings,
    Never,
}

/// What an action does, and when the focused terminal takes the keyboard after it. The two ways
/// to close close the active tab beside the terminals, where there is one.
pub open spec fn action_effect(action: AppAction, has_auxiliary: bool) -> (AppCommand, Refocus) {
    match action {
        AppAction::SplitRight => (
            AppCommand::SplitFocused(SplitDirection::Vertical),
            Refocus::Always,
        ),
        AppAction::SplitDown => (
            AppCommand::SplitFocused(SplitDirection::Horizontal),
            Refocus::Always,
        ),
        AppAction::NewTab => (AppCommand::NewTab, Refocus::Always),
        AppAction::ClosePane => if has_auxiliary {
            (AppCommand::CloseAuxiliaryTab, Refocus::Always)
        } else {
            (AppCommand::CloseFocused, Refocus::Always)
        },
        AppAction::FocusNextPane => (AppCommand::FocusNextPane, Refocus::Always),
        AppAction::FocusPrevPane => (AppCommand::FocusPrevPane, Refocus::Always),
        AppAction::NextTab => (AppCommand::NextTab, Refocus::Always),
        AppAction::PrevTab => (AppCommand::PrevTab, Refocus::Always),
        AppAction::ToggleSidebar => (AppCommand::ToggleSidebar, Refocus::Never),
        AppAction::AddProject => (AppCommand::PickFolder, Refocus::Never),
        AppAction::CloseTab => if has_auxiliary {
            (AppCommand::CloseAuxiliaryTab, Refocus::Always)
        } else {
            (AppCommand::CloseTab, Refocus::Always)
        },
        AppAction::ToggleSettings => (AppCommand::ToggleSettings, Refocus::UnlessSettings),
        AppAction::CheckForUpdates => (AppCommand::CheckForUpdates, Refocus::Never),
        AppAction::GotoTab(number) => if 1 <= number <= 9 {
            (AppCommand::GotoTab((number - 1) as usize), Refocus::Always)
        } else {
            (AppCommand::Nothing, Refocus::Never)
        },
    }
}

/// What an action does, and when the focused terminal takes the keyboard after it.
pub fn handle_action(action: AppAction, has_auxiliary: bool) -> (effect: (AppCommand, Refocus))
    ensures
        effect == action_effect(action, has_auxiliary),
{
    match action {
        AppAction::SplitRight => (
            AppCommand::SplitFocused(SplitDirection::Vertical),
            Refocus::Always,
        ),
        AppAction::SplitDown => (
            AppCommand::SplitFocused(SplitDirection::Horizontal),
            Refocus::Always,
        ),
        AppAction::NewTab => (AppCommand::NewTab, Refocus::Always),
        AppAction::ClosePane => if has_auxiliary {
            (AppCommand::CloseAuxiliaryTab, Refocus::Always)
        } else {
            (AppCommand::CloseFocused, Refocus::Always)
        },
        AppAction::FocusNextPane => (AppCommand::FocusNextPane, Refocus::Always),
        AppAction::FocusPrevPane => (AppCommand::FocusPrevPane, Refocus::Always),
        AppAction::NextTab => (AppCommand::NextTab, Refocus::Always),
        AppAction::PrevTab => (AppCommand::PrevTab, Refocus::Always),
        AppAction::ToggleSidebar => (AppCommand::ToggleSidebar, Refocus::Never),
        AppAction::AddProject => (AppCommand::PickFolder, Refocus::Never),
        AppAction::CloseTab => if has_auxiliary {
            (AppCommand::CloseAuxiliaryTab, Refocus::Always)
        } else {
            (AppCommand::CloseTab, Refocus::Always)
        },
        AppAction::ToggleSettings => (AppCommand::ToggleSettings, Refocus::UnlessSettings),
        AppAction::CheckForUpdates => (AppCommand::CheckForUpdates, Refocus::Never),
        AppAction::GotoTab(number) => if number >= 1 && number <= 9 {
            (AppCommand::GotoTab(number - 1), Refocus::Always)
        } else {
            (AppCommand::Nothing, Refocus::Never)
        },
    }
}

/// The terminal of a node, where it is one and has a view.
pub open spec fn terminal_of(node: Option<&LayoutNode>, views: Seq<Seq<char>>) -> Option<
    Seq<char>,
> {
    match node {
        Some(LayoutNode::Terminal { terminal_id: Some(id) }) => if views.contains(id@) {
            Some(id@)
        } else {
            None
        },
        _ => None,
    }
}

fn lists_terminal(views: &Vec<String>, id: &str) -> (listed: bool)
    ensures
        listed == strings::views(views@).contains(id@),
{
    let ghost texts = strings::views(views@);
    let mut i: usize = 0;
    while i < views.len()
        invariant
            i <= views@.len(),
            texts == strings::views(views@),
            forall|k: int| 0 <= k < i ==> texts[k] != id@,
        decreases views@.len() - i,
    {
        if strings::same_text(views[i].as_str(), id) {
            assert(texts[i as int] == id@);
            return true;
        }
        i = i + 1;
    }
    false
}

fn terminal_with_view<'a>(node: Option<&'a LayoutNode>, views: &Vec<String>) -> (terminal: Option<
    &'a str,
>)
    ensures
        match terminal {
            Some(id) => terminal_of(node, strings::views(views@)) == Some(id@),
            None => terminal_of(node, strings::views(views@)) is None,
        },
{
    if let Some(LayoutNode::Terminal { terminal_id: Some(id) }) = node {
        if lists_terminal(views, id.as_str()) {
            return Some(id.as_str());
        }
    }
    None
}

/// The terminal that has the focus: the one at the focused place, or else the first one of the
/// active project. One without a view counts as missing.
pub fn focused_terminal<'a>(
    target: Option<&'a LayoutNode>,
    first: Option<&'a LayoutNode>,
    views: &Vec<String>,
) -> (terminal: Option<&'a str>)
    ensures
        ({
            let views = strings::views(views@);
            let wanted = match terminal_of(target, views) {
                Some(id) => Some(id),
                None => terminal_of(first, views),
            };
            match terminal {
                Some(id) => wanted == Some(id@),
                None => wanted is None,
            }
        }),
{
    match terminal_with_view(target, views) {
        Some(id) => Some(id),
        None => terminal_with_view(first, views),
    }
}

/// What the banner of the workspace tells.
#[derive(Clone, Copy, Debug, PartialEq, Eq, Structural)]
pub enum WorkspaceBannerKind {
    Warning,
    Error,
}

/// The banner of the workspace.
#[derive(Debug)]
pub struct WorkspaceBanner {
    pub kind: WorkspaceBannerKind,
    pub message: String,
}

/// How a new window begins.
#[derive(Debug)]
pub enum StartStep {
    /// Its stored projects are opened.
    Restore,
    /// A project is opened in a directory.
    InitProject { directory: String },
}

/// How a new window begins: with its stored projects, or else in the directory that was asked for,
/// the working directory or the root.
pub fn start_step(
    has_stored: bool,
    initial_dir: Option<String>,
    working_dir: Option<String>,
) -> (step: StartStep)
    ensures
        if has_stored {
            step is Restore
        } else {
            step matches StartStep::InitProject { directory } && directory@ == match initial_dir {
                Some(directory) => directory@,
                None => match working_dir {
                    Some(directory) => directory@,
                    None => "/"@,
                },
            }
        },
{
    if has_stored {
        StartStep::Restore
    } else {
        StartStep::InitProject {
            directory: match initial_dir {
                Some(directory) => directory,
                None => match working_dir {
                    Some(directory) => directory,
                    None => "/".to_owned(),
                },
            },
        }
    }
}

/// The banner of a workspace that opens: the error of the daemon, where there was one.
pub fn start_banner(daemon_error: Option<String>) -> (banner: Option<WorkspaceBanner>)
    ensures
        match (daemon_error, banner) {
            (Some(message), Some(banner)) => banner.kind == WorkspaceBannerKind::Error
                && banner.message == message,
            (None, None) => true,
            _ => false,
        },
{
    match daemon_error {
        Some(message) => Some(WorkspaceBanner { kind: WorkspaceBannerKind::Error, message }),
        None => None,
    }
}

/// The colour of the banner of the workspace.
pub open spec fn color_of_banner(palette: OrcaTheme, kind: WorkspaceBannerKind) -> u32 {
    match kind {
        WorkspaceBannerKind::Warning => palette.STATUS_AMBER,
        WorkspaceBannerKind::Error => palette.STATUS_CORAL,
    }
}

/// The colour of the banner of the workspace.
pub fn workspace_banner_color(palette: &OrcaTheme, kind: WorkspaceBannerKind) -> (color: u32)
    ensures
        color == color_of_banner(*palette, kind),
{
    match kind {
        WorkspaceBannerKind::Warning => palette.STATUS_AMBER,
        WorkspaceBannerKind::Error => palette.STATUS_CORAL,
    }
}

/// How an update banner looks.
#[derive(Clone, Copy, Debug, PartialEq, Eq, Structural)]
pub struct UpdateBannerLook {
    pub fill: Tint,
    pub border: Tint,
    pub text: u32,
    pub button_border: u32,
    pub button_fill: Tint,
    pub button_text: u32,
    pub close_text: u32,
}

/// How an update banner looks.
pub open spec fn update_banner_look(palette: OrcaTheme, kind: UpdateBannerKind) -> UpdateBannerLook {
    let (color, text, button_alpha) = match kind {
        UpdateBannerKind::Available => (palette.ORCA_BLUE, palette.PATCH, 0x18u8),
        UpdateBannerKind::Info => (palette.STATUS_AMBER, palette.STATUS_AMBER, 0x12u8),
        UpdateBannerKind::Error => (palette.STATUS_CORAL, palette.STATUS_CORAL, 0x12u8),
    };
    UpdateBannerLook {
        fill: Tint { color, alpha: 0x12 },
        border: Tint { color, alpha: 0x30 },
        text,
        button_border: color,
        button_fill: Tint { color, alpha: button_alpha },
        button_text: palette.PATCH,
        close_text: palette.FOG,
    }
}

/// A button of an update banner and the page that it opens.
#[derive(Debug)]
pub struct UpdateButton {
    pub label: String,
    pub url: String,
}

/// The labels and pages of buttons.
pub open spec fn button_views(buttons: Seq<UpdateButton>) -> Seq<(Seq<char>, Seq<char>)> {
    buttons.map_values(|button: UpdateButton| (button.label@, button.url@))
}

/// The buttons of an update banner.
pub open spec fn update_buttons(banner: UpdateBannerState) -> Seq<(Seq<char>, Seq<char>)> {
    (match banner.download_url {
        Some(url) => seq![("Download"@, url@)],
        None => Seq::empty(),
    }) + (match banner.release_notes_url {
        Some(url) => seq![("Release Notes"@, url@)],
        None => Seq::empty(),
    })
}

/// An update banner as it is drawn.
#[derive(Debug)]
pub struct UpdateBannerView {
    pub message: String,
    pub look: UpdateBannerLook,
    pub buttons: Vec<UpdateButton>,
}

/// The update banner is drawn like this.
pub open spec fn draws_update_banner(
    view: Option<UpdateBannerView>,
    palette: OrcaTheme,
    banner: Option<UpdateBannerState>,
) -> bool {
    match (banner, view) {
        (Some(banner), Some(view)) => view.message@ == banner.message@ && view.look
            == update_banner_look(palette, banner.kind) && button_views(view.buttons@)
            == update_buttons(banner),
        (None, None) => true,
        _ => false,
    }
}

/// Draws an update banner: its message, a button for each page that it knows, and one that closes
/// it.
pub fn render_update_banner(palette: &OrcaTheme, banner: &Option<UpdateBannerState>) -> (view: Option<
    UpdateBannerView,
>)
    ensures
        draws_update_banner(view, *palette, *banner),
{
    let banner = match banner {
        Some(banner) => banner,
        None => {
            return None;
        },
    };
    let (color, text, button_alpha): (u32, u32, u8) = match banner.kind {
        UpdateBannerKind::Available => (palette.ORCA_BLUE, palette.PATCH, 0x18),
        UpdateBannerKind::Info => (palette.STATUS_AMBER, palette.STATUS_AMBER, 0x12),
        UpdateBannerKind::Error => (palette.STATUS_CORAL, palette.STATUS_CORAL, 0x12),
    };
    let mut buttons: Vec<UpdateButton> = Vec::new();
    if let Some(url) = &banner.download_url {
        buttons.push(UpdateButton { label: "Download".to_owned(), url: url.clone() });
    }
    if let Some(url) = &banner.release_notes_url {
        buttons.push(UpdateButton { label: "Release Notes".to_owned(), url: url.clone() });
    }
    assert(button_views(buttons@) =~= update_buttons(*banner));
    Some(
        UpdateBannerView {
            message: banner.message.clone(),
            look: UpdateBannerLook {
                fill: Tint { color, alpha: 0x12 },
                border: Tint { color, alpha: 0x30 },
                text,
                button_border: color,
                button_fill: Tint { color, alpha: button_alpha },
                button_text: palette.PATCH,
                close_text: palette.FOG,
            },
            buttons,
        },
    )
}

/// What a frame of the window is drawn from.
#[derive(Debug)]
pub struct WindowState {
    pub tabs: Vec<AuxiliaryTabKind>,
    pub active_tab: Option<AuxiliaryTabKind>,
    pub active_tab_index: Option<usize>,
    pub settings_focused: bool,
    pub has_settings_view: bool,
    /// The terminal that is to take the keyboard.
    pub pending_focus: Option<String>,
    pub terminal_views: Vec<String>,
    pub banner: Option<WorkspaceBanner>,
}

/// A frame of the window: who takes the keyboard, which part of the layout the terminals show, and
/// below the banners the content.
#[derive(Debug)]
pub struct WindowFrame {
    pub focus_terminal: Option<String>,
    pub settings: SettingsStep,
    pub layout_path: Vec<usize>,
    pub workspace_banner: Option<ColoredText>,
    pub update_banner: Option<UpdateBannerView>,
    pub content: ContentArea,
}

impl<D, L, A> OrcaAppView<D, L, A> {
    /// Draws the window. Views of closed tabs are dropped, a terminal that waits for the keyboard
    /// gets it where it has a view, and a menu that was asked for opens.
    pub fn render(
        &mut self,
        palette: &OrcaTheme,
        state: &WindowState,
        menu_request: Option<Vec<ContextMenuItem<A>>>,
    ) -> (frame: WindowFrame)
        ensures
            final(self).diff_views@ == old(self).diff_views@.filter(
                |slot: ViewSlot<D>| open_diff_scopes(state.tabs@).contains(slot.key@),
            ),
            final(self).live_diff_views@ == old(self).live_diff_views@.filter(
                |slot: ViewSlot<L>| open_projects(state.tabs@).contains(slot.key@),
            ),
            match menu_request {
                Some(items) => final(self).context_menu is Some && final(self).context_menu->0.items
                    == items,
                None => final(self).context_menu == old(self).context_menu,
            },
            *final(self) == (OrcaAppView {
                diff_views: final(self).diff_views,
                live_diff_views: final(self).live_diff_views,
                context_menu: final(self).context_menu,
                ..*old(self)
            }),
            strings::optional_view(frame.focus_terminal) == match state.pending_focus {
                Some(id) => if strings::views(state.terminal_views@).contains(id@) {
                    Some(id@)
                } else {
                    None
                },
                None => None,
            },
            frame.settings == step_of_settings(state.settings_focused, state.has_settings_view),
            frame.layout_path@ == tab_path(state.active_tab_index),
            match (frame.workspace_banner, state.banner) {
                (Some(shown), Some(banner)) => widgets::says(
                    shown,
                    banner.message@,
                    color_of_banner(*palette, banner.kind),
                ),
                (None, None) => true,
                _ => false,
            },
            draws_update_banner(frame.update_banner, *palette, old(self).update_banner),
            match state.active_tab {
                Some(tab) => shows_content(frame.content, Some(&tab)),
                None => frame.content is Layout,
            },
    {
        self.prune_closed_diff_views(&state.tabs);
        self.prune_closed_live_diff_views(&state.tabs);
        let focus_terminal = match &state.pending_focus {
            Some(id) => if lists_terminal(&state.terminal_views, id.as_str()) {
                Some(id.clone())
            } else {
                None
            },
            None => None,
        };
        let workspace_banner = match &state.banner {
            Some(banner) => Some(
                widgets::colored_text(
                    banner.message.as_str(),
                    workspace_banner_color(palette, banner.kind),
                ),
            ),
            None => None,
        };
        let content = match &state.active_tab {
            Some(tab) => content_area(Some(tab)),
            None => content_area(None),
        };
        let update_banner = render_update_banner(palette, &self.update_banner);
        self.take_menu_request(menu_request);
        WindowFrame {
            focus_terminal,
            settings: settings_step(state.settings_focused, state.has_settings_view),
            layout_path: root_layout_path(state.active_tab_index),
            workspace_banner,
            update_banner,
            content,
        }
    }
}

/// The place of a window among the stored ones. Windows are counted from one, and only the low
/// half of the number counts.
pub fn window_sort_order(window_id: i64) -> (order: i32)
    requires
        (window_id as i32) > i32::MIN,
    ensures
        order == (window_id as i32) - 1,
{
    (#[verifier::truncate] (window_id as i32)) - 1
}

/// A version that was dismissed is not announced again by a check that nobody asked for. `banner`
/// announces `update`, and the version that closing it hands back is the one that is stored.
pub proof fn dismissed_update_stays_hidden(
    banner: UpdateBannerState,
    update: AvailableUpdate,
    stored: Option<String>,
    again: AvailableUpdate,
)
    requires
        announces(banner, update),
        strings::optional_view(stored) == strings::optional_view(banner.latest_version),
    ensures
        (strings::optional_view(stored) == Some(again.latest_version@)) == (again.latest_version@
            == update.latest_version@),
{
}

/// A key finds the first view that has it, and none only where no view has it.
pub proof fn key_finds_its_view<V>(views: Seq<ViewSlot<V>>, key: Seq<char>)
    ensures
        match view_with_key(views, key) {
            Some(index) => {
                &&& 0 <= index < views.len()
                &&& views[index].key@ == key
                &&& forall|i: int| 0 <= i < index ==> (#[trigger] views[i]).key@ != key
            },
            None => forall|i: int| 0 <= i < views.len() ==> (#[trigger] views[i]).key@ != key,
        },
    decreases views.len(),
{
    if views.len() > 0 {
        let rest = views.drop_last();
        key_finds_its_view(rest, key);
        assert forall|i: int| 0 <= i < rest.len() implies rest[i] == #[trigger] views[i] by {}
    }
}

/// Going to a tab by its number goes to the one that is counted so from one, for the numbers that a
/// key can name, and other numbers do nothing.
pub proof fn tabs_are_counted_from_one(number: usize, has_auxiliary: bool)
    ensures
        ({
            let command = action_effect(AppAction::GotoTab(number), has_auxiliary).0;
            &&& 1 <= number <= 9 ==> (command matches AppCommand::GotoTab(index) && index + 1
                == number)
            &&& number == 0 || number > 9 ==> command is Nothing
        }),
{
}

/// Closing closes the active tab beside the terminals where there is one. Only where there is none,
/// closing a pane closes the focused one, and closing a tab the tab of terminals.
pub proof fn closing_closes_the_front_first()
    ensures
        action_effect(AppAction::ClosePane, true).0 is CloseAuxiliaryTab,
        action_effect(AppAction::CloseTab, true).0 is CloseAuxiliaryTab,
        action_effect(AppAction::ClosePane, false).0 is CloseFocused,
        action_effect(AppAction::CloseTab, false).0 is CloseTab,
{
}

/// Every other action asks for what it is named after, with a tab beside the terminals or without.
pub proof fn actions_ask_for_what_they_name(action: AppAction, has_auxiliary: bool)
    ensures
        ({
            let (command, refocus) = action_effect(action, has_auxiliary);
            &&& action is SplitRight == (command == AppCommand::SplitFocused(
                SplitDirection::Vertical,
            ))
            &&& action is SplitDown == (command == AppCommand::SplitFocused(
                SplitDirection::Horizontal,
            ))
            &&& action is NewTab == command is NewTab
            &&& action is FocusNextPane == command is FocusNextPane
            &&& action is FocusPrevPane == command is FocusPrevPane
            &&& action is NextTab == command is NextTab
            &&& action is PrevTab == command is PrevTab
            &&& action is ToggleSidebar == command is ToggleSidebar
            &&& action is AddProject == command is PickFolder
            &&& action is ToggleSettings == command is ToggleSettings
            &&& action is CheckForUpdates == command is CheckForUpdates
            &&& action is ToggleSettings == refocus is UnlessSettings
            &&& action is ToggleSidebar || action is AddProject || action is CheckForUpdates
                ==> refocus is Never
        }),
{
}

/// A terminal counts only where its node is one, has an id and a view of that id.
pub proof fn terminal_has_a_view(node: LayoutNode, views: Seq<Seq<char>>)
    ensures
        terminal_of(None, views) is None,
        match terminal_of(Some(&node), views) {
            Some(id) => views.contains(id) && (node matches LayoutNode::Terminal {
                terminal_id: Some(own),
            } && own@ == id),
            None => node matches LayoutNode::Terminal { terminal_id: Some(own) }
                ==> !views.contains(own@),
        },
{
}

/// The window shows the view of the active tab, by what the tab is about, and the layout of
/// terminals where no such tab is active. The layout is that of the active tab of terminals.
pub proof fn window_shows_the_active_tab(content: ContentArea, tab: AuxiliaryTabKind, index: usize)
    ensures
        shows_content(content, None) == content is Layout,
        shows_content(content, Some(&tab)) ==> content is Settings == tab is Settings
            && content is Diff == tab is Diff && content is LiveDiffStream == tab is LiveDiffStream,
        shows_content(content, Some(&tab)) && tab is Diff ==> content->Diff_scope_root@
            == tab->scope_root@,
        shows_content(content, Some(&tab)) && tab is LiveDiffStream
            ==> content->LiveDiffStream_project_id@ == tab->project_id@,
        tab_path(Some(index)) == seq![index],
        tab_path(None) == seq![0usize],
{
}

/// A banner that announces a version leads to the pages of that version: the download always, and
/// the release notes where there are any. A notice leads nowhere.
pub proof fn announced_version_can_be_had(
    banner: UpdateBannerState,
    update: AvailableUpdate,
    kind: UpdateBannerKind,
    message: Seq<char>,
)
    ensures
        announces(banner, update) ==> {
            let buttons = update_buttons(banner);
            &&& buttons.len() == 1 + (if update.release_notes_url is Some {
                1int
            } else {
                0int
            })
            &&& buttons[0] == ("Download"@, update.download_url@)
            &&& update.release_notes_url is Some ==> buttons[1] == (
                "Release Notes"@,
                update.release_notes_url->0@,
            )
            &&& banner.latest_version is Some && banner.latest_version->0@ == update.latest_version@
        },
        is_notice(Some(banner), kind, message) ==> update_buttons(banner).len() == 0,
{
}

/// What the message of an announced version names first is the newer version, and then the one that
/// is running.
pub proof fn announcement_names_the_newer_version_first(
    banner: UpdateBannerState,
    update: AvailableUpdate,
)
    requires
        announces(banner, update),
    ensures
        banner.message@.subrange(10, 10 + update.latest_version@.len() as int) == update.latest_version@,
        ({
            let end = banner.message@.len() - 1;
            banner.message@.subrange(end - update.current_version@.len(), end)
                == update.current_version@
        }),
{
    reveal_strlit("OrcaShell ");
    reveal_strlit(" is available. You\u{2019}re running ");
    reveal_strlit(".");
    let end = banner.message@.len() - 1;
    assert(banner.message@.subrange(10, 10 + update.latest_version@.len() as int)
        =~= update.latest_version@);
    assert(banner.message@.subrange(end - update.current_version@.len(), end)
        =~= update.current_version@);
}

/// Errors are shown in the colour of errors and warnings in that of warnings, in both banners of the
/// window.
pub proof fn banners_tell_errors_by_their_colour(palette: OrcaTheme)
    ensures
        color_of_banner(palette, WorkspaceBannerKind::Error) == palette.STATUS_CORAL,
        color_of_banner(palette, WorkspaceBannerKind::Warning) == palette.STATUS_AMBER,
        update_banner_look(palette, UpdateBannerKind::Error).text == palette.STATUS_CORAL,
        update_banner_look(palette, UpdateBannerKind::Error).fill.color == palette.STATUS_CORAL,
        update_banner_look(palette, UpdateBannerKind::Info).text == palette.STATUS_AMBER,
        update_banner_look(palette, UpdateBannerKind::Available).fill.color == palette.ORCA_BLUE,
{
}

/// While a check for updates runs, no other is started; once its result has come in, one can be.
pub proof fn update_checks_do_not_overlap<D, L, A>(
    first: &mut OrcaAppView<D, L, A>,
    second: &mut OrcaAppView<D, L, A>,
    done: &mut OrcaAppView<D, L, A>,
    third: &mut OrcaAppView<D, L, A>,
    manual: bool,
    again: bool,
    result: UpdateCheckResult,
    dismissed: &Option<String>,
    first_step: UpdateCheckStep,
    second_step: UpdateCheckStep,
    third_step: UpdateCheckStep,
)
    requires
        call_ensures(OrcaAppView::<D, L, A>::trigger_update_check, (first, manual), first_step),
        call_ensures(OrcaAppView::<D, L, A>::trigger_update_check, (second, again), second_step),
        call_ensures(
            OrcaAppView::<D, L, A>::apply_update_check_result,
            (done, result, manual, dismissed),
            (),
        ),
        call_ensures(OrcaAppView::<D, L, A>::trigger_update_check, (third, again), third_step),
    ensures
        *old(second) == *final(first) ==> second_step is Wait,
        *old(third) == *final(done) ==> third_step is Start,
{
}

/// A check that nobody asked for shows a banner only for a version that can be had and was not
/// dismissed; what else comes of it leaves the window alone.
pub proof fn background_checks_stay_quiet<D, L, A>(
    view: &mut OrcaAppView<D, L, A>,
    result: UpdateCheckResult,
    dismissed: &Option<String>,
)
    requires
        call_ensures(
            OrcaAppView::<D, L, A>::apply_update_check_result,
            (view, result, false, dismissed),
            (),
        ),
    ensures
        !(result is UpdateAvailable) ==> final(view).update_banner == old(view).update_banner,
        result matches UpdateCheckResult::UpdateAvailable(update) ==> final(view).update_banner
            is None == (dismissed is Some && dismissed->0@ == update.latest_version@),
        result matches UpdateCheckResult::UpdateAvailable(update) ==> (final(view).update_banner
            is Some ==> final(view).update_banner->0.kind is Available),
{
}

/// Views of diffs are kept exactly while their tab is open.
pub proof fn views_of_closed_tabs_are_dropped<D, L, A>(
    view: &mut OrcaAppView<D, L, A>,
    tabs: &Vec<AuxiliaryTabKind>,
    index: int,
)
    requires
        call_ensures(OrcaAppView::<D, L, A>::prune_closed_diff_views, (view, tabs), ()),
        0 <= index < old(view).diff_views@.len(),
    ensures
        ({
            let slot = old(view).diff_views@[index];
            final(view).diff_views@.contains(slot) == exists|i: int|
                0 <= i < tabs@.len() && (#[trigger] tabs@[i] matches AuxiliaryTabKind::Diff {
                    scope_root,
                } && scope_root@ == slot.key@)
        }),
        final(view).live_diff_views == old(view).live_diff_views,
{
    let open = |slot: ViewSlot<D>| open_diff_scopes(tabs@).contains(slot.key@);
    let all = old(view).diff_views@;
    let slot = all[index];
    if open(slot) {
        all.lemma_filter_contains(open, index);
    }
    if all.filter(open).contains(slot) {
        let i = choose|i: int| 0 <= i < all.filter(open).len() && all.filter(open)[i] == slot;
        all.lemma_filter_pred(open, i);
    }
}

/// Views of feeds are kept exactly while their tab is open.
pub proof fn views_of_closed_feeds_are_dropped<D, L, A>(
    view: &mut OrcaAppView<D, L, A>,
    tabs: &Vec<AuxiliaryTabKind>,
    index: int,
)
    requires
        call_ensures(OrcaAppView::<D, L, A>::prune_closed_live_diff_views, (view, tabs), ()),
        0 <= index < old(view).live_diff_views@.len(),
    ensures
        ({
            let slot = old(view).live_diff_views@[index];
            final(view).live_diff_views@.contains(slot) == exists|i: int|
                0 <= i < tabs@.len() && (
                #[trigger] tabs@[i] matches AuxiliaryTabKind::LiveDiffStream { project_id }
                    && project_id@ == slot.key@)
        }),
        final(view).diff_views == old(view).diff_views,
{
    let open = |slot: ViewSlot<L>| open_projects(tabs@).contains(slot.key@);
    let all = old(view).live_diff_views@;
    let slot = all[index];
    if open(slot) {
        all.lemma_filter_contains(open, index);
    }
    if all.filter(open).contains(slot) {
        let i = choose|i: int| 0 <= i < all.filter(open).len() && all.filter(open)[i] == slot;
        all.lemma_filter_pred(open, i);
    }
}

} // verus!
