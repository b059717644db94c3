//! The view of a diff tab: what it keeps between frames and how it takes input.

use crate::conflict_highlight::{CachedConflictLines, LineHighlighter};
use crate::diff_cache;
use crate::diff_cache::{CachedDiffLines, CachedIndexTree, CachedStashDiffLines};
use crate::diff_header;
use crate::diff_header::DiffHeader;
use crate::diff_panes;
use crate::diff_panes::{DiffPane, ModeBanner, TreePane};
use crate::diff_stash;
use crate::diff_stash::{StashDiffPane, StashTreePane};
use crate::diff_state::{DiffRenderSnapshot, DiffTabViewMode, GitSnapshotSummary};
use crate::diff_text::{DiffPosition, DiffSelection};
use crate::keys;
use crate::keys::{ConflictKeyCommand, Modifiers};
use crate::model::{DiffSectionKind, HighlightedSpan};
use crate::theme::{OrcaTheme, ThemeId};
use crate::widgets;
use crate::widgets::PanelMessage;
use vstd::prelude::*;

verus! {

/// The view of a diff tab.
#[derive(Debug)]
pub struct DiffExplorerView {
    pub scope_root: String,
    pub selection: Option<DiffSelection>,
    pub line_cache: Option<CachedDiffLines>,
    pub stash_line_cache: Option<CachedStashDiffLines>,
    pub conflict_line_cache: Option<CachedConflictLines>,
    pub tree_cache: Option<CachedIndexTree>,
    pub has_commit_input: bool,
    pub conflict_select_anchor: Option<usize>,
    pub conflict_is_selecting: bool,
}

/// What a key does in a diff tab.
#[derive(Clone, Copy, Debug, PartialEq, Eq, Structural)]
pub enum ExplorerKey {
    /// The conflict editor takes it.
    Conflict(ConflictKeyCommand),
    /// The selected text goes to the clipboard.
    Copy,
    /// It is left to others.
    Ignore,
}

/// The tab shows a conflicted file.
pub open spec fn conflict_selected(snap: DiffRenderSnapshot) -> bool {
    &&& snap.tab.view_mode == DiffTabViewMode::WorkingTree
    &&& snap.tab.selected_file is Some
    &&& snap.tab.selected_file->0.section == DiffSectionKind::Conflicted
}

impl DiffExplorerView {
    /// A view that keeps nothing yet.
    pub fn new(scope_root: String) -> (view: Self)
        ensures
            view.scope_root == scope_root,
            view.selection is None,
            view.line_cache is None,
            view.stash_line_cache is None,
            view.conflict_line_cache is None,
            view.tree_cache is None,
            !view.has_commit_input,
            view.conflict_select_anchor is None,
            !view.conflict_is_selecting,
    {
        DiffExplorerView {
            scope_root,
            selection: None,
            line_cache: None,
            stash_line_cache: None,
            conflict_line_cache: None,
            tree_cache: None,
            has_commit_input: false,
            conflict_select_anchor: None,
            conflict_is_selecting: false,
        }
    }

    /// Forgets the lines that were made for the last theme. The trees have no colours and stay.
    pub fn invalidate_theme_cache(&mut self)
        ensures
            final(self).line_cache is None,
            final(self).stash_line_cache is None,
            final(self).conflict_line_cache is None,
            final(self).tree_cache == old(self).tree_cache,
            final(self).scope_root == old(self).scope_root,
            final(self).selection == old(self).selection,
            final(self).has_commit_input == old(self).has_commit_input,
            final(self).conflict_select_anchor == old(self).conflict_select_anchor,
            final(self).conflict_is_selecting == old(self).conflict_is_selecting,
    {
        self.line_cache = None;
        self.stash_line_cache = None;
        self.conflict_line_cache = None;
    }

    /// The tab shows lines that are not the kept ones.
    pub open spec fn restarts(self, snap: DiffRenderSnapshot, theme_id: ThemeId) -> bool {
        diff_cache::lines_restart(self.line_cache, snap) || diff_cache::stash_lines_restart(
            self.stash_line_cache,
            snap,
            theme_id,
        )
    }

    /// The lines of the conflict editor that may be highlighted from are what the highlighter made.
    pub open spec fn ready_for<
        S: Fn(u64, &str) -> (u64, Vec<HighlightedSpan>),
        T: Fn(&str) -> Option<Vec<HighlightedSpan>>,
    >(
        self,
        snap: DiffRenderSnapshot,
        theme_id: ThemeId,
        highlighter: LineHighlighter<S, T>,
    ) -> bool {
        diff_cache::shown_conflict(snap) is Some && diff_cache::conflict_cache_usable(
            self.conflict_line_cache,
            snap.tab.selected_file->0,
            diff_cache::shown_conflict(snap)->0,
            theme_id,
        ) ==> self.conflict_line_cache->0.built_by(highlighter)
    }

    /// All that is kept is brought up to date. A new diff starts without a selection, and the field
    /// for the commit message goes with the last staged file.
    pub open spec fn follows<
        S: Fn(u64, &str) -> (u64, Vec<HighlightedSpan>),
        T: Fn(&str) -> Option<Vec<HighlightedSpan>>,
    >(
        self,
        before: Self,
        snap: DiffRenderSnapshot,
        theme_id: ThemeId,
        oversize_message: Seq<char>,
        highlighter: LineHighlighter<S, T>,
    ) -> bool {
        &&& self.scope_root == before.scope_root
        &&& self.conflict_select_anchor == before.conflict_select_anchor
        &&& self.conflict_is_selecting == before.conflict_is_selecting
        &&& self.selection == if before.restarts(snap, theme_id) {
            None
        } else {
            before.selection
        }
        &&& self.has_commit_input == (before.has_commit_input && snap.tab.view_mode
            == DiffTabViewMode::WorkingTree && snap.staged_file_count > 0)
        &&& diff_cache::tree_follows(before.tree_cache, snap, self.tree_cache)
        &&& diff_cache::lines_follow(before.line_cache, snap, self.line_cache)
        &&& diff_cache::stash_lines_follow(
            before.stash_line_cache,
            snap,
            theme_id,
            oversize_message,
            self.stash_line_cache,
        )
        &&& diff_cache::conflict_lines_follow(
            before.conflict_line_cache,
            snap,
            theme_id,
            highlighter,
            self.conflict_line_cache,
        )
    }

    /// Brings all that is kept up to date before a frame is drawn, and says whether the horizontal
    /// scroll position starts anew.
    pub fn prepare_frame<
        S: Fn(u64, &str) -> (u64, Vec<HighlightedSpan>),
        T: Fn(&str) -> Option<Vec<HighlightedSpan>>,
    >(
        &mut self,
        snap: &DiffRenderSnapshot,
        theme_id: ThemeId,
        oversize_message: &str,
        highlighter: &LineHighlighter<S, T>,
    ) -> (reset: bool)
        requires
            highlighter.sound(),
            old(self).ready_for(*snap, theme_id, *highlighter),
        ensures
            reset == old(self).restarts(*snap, theme_id),
            final(self).follows(*old(self), *snap, theme_id, oversize_message@, *highlighter),
            final(self).ready_for(*snap, theme_id, *highlighter),
    {
        diff_cache::update_tree_cache(&mut self.tree_cache, snap);
        let file_reset = diff_cache::update_line_cache(&mut self.line_cache, snap);
        let stash_reset = diff_cache::update_stash_line_cache(
            &mut self.stash_line_cache,
            snap,
            theme_id,
            oversize_message,
        );
        diff_cache::update_conflict_cache(
            &mut self.conflict_line_cache,
            snap,
            theme_id,
            highlighter,
        );
        if snap.tab.view_mode != DiffTabViewMode::WorkingTree || snap.staged_file_count == 0 {
            self.has_commit_input = false;
        }
        let reset = file_reset || stash_reset;
        if reset {
            self.selection = None;
        }
        reset
    }

    /// What a key does: the conflict editor takes the keys while a conflicted file is shown, and
    /// elsewhere the copy key copies.
    pub fn key_down(
        snap: Option<&DiffRenderSnapshot>,
        key: &str,
        modifiers: &Modifiers,
        key_char: &Option<String>,
        is_macos: bool,
    ) -> (action: ExplorerKey)
        ensures
            action == if snap is Some && conflict_selected(*snap->0) {
                ExplorerKey::Conflict(
                    keys::conflict_command(key@, *modifiers, *key_char, is_macos),
                )
            } else if key@ == "c"@ && (modifiers.platform || modifiers.control) {
                ExplorerKey::Copy
            } else {
                ExplorerKey::Ignore
            },
    {
        let in_editor = match snap {
            Some(snap) => snap.tab.view_mode == DiffTabViewMode::WorkingTree && match &snap.tab.selected_file {
                Some(selected) => selected.section == DiffSectionKind::Conflicted,
                None => false,
            },
            None => false,
        };
        if in_editor {
            ExplorerKey::Conflict(
                keys::handle_conflict_key_down(key, modifiers, key_char, is_macos),
            )
        } else if keys::is_copy_keystroke(key, modifiers) {
            ExplorerKey::Copy
        } else {
            ExplorerKey::Ignore
        }
    }

    /// Moves the end of a selection that is being dragged, and says whether there is one.
    pub fn drag_selection(&mut self, position: DiffPosition) -> (dragged: bool)
        ensures
            dragged == (old(self).selection is Some && old(self).selection->0.is_selecting),
            !dragged ==> *final(self) == *old(self),
            dragged ==> final(self).selection == Some(
                DiffSelection {
                    start: old(self).selection->0.start,
                    end: position,
                    is_selecting: true,
                },
            ),
            *final(self) == (DiffExplorerView { selection: final(self).selection, ..*old(self) }),
    {
        if let Some(selection) = self.selection {
            if selection.is_selecting {
                self.selection =
                Some(DiffSelection { start: selection.start, end: position, is_selecting: true });
                return true;
            }
        }
        false
    }

    /// Ends what is being dragged when the button goes up, and says whether anything was.
    pub fn release_drag(&mut self) -> (released: bool)
        ensures
            released == (old(self).conflict_is_selecting || (old(self).selection is Some && old(self).selection->0.is_selecting)),
            !released ==> *final(self) == *old(self),
            final(self).selection == match old(self).selection {
                Some(selection) => Some(DiffSelection { is_selecting: false, ..selection }),
                None => None,
            },
            *final(self) == (DiffExplorerView {
                selection: final(self).selection,
                conflict_is_selecting: false,
                ..*old(self)
            }),
    {
        let mut released = self.conflict_is_selecting;
        self.conflict_is_selecting = false;
        if let Some(selection) = self.selection {
            if selection.is_selecting {
                released = true;
            }
            self.selection =
            Some(
                DiffSelection {
                    start: selection.start,
                    end: selection.end,
                    is_selecting: false,
                },
            );
        }
        released
    }
}

/// The left pane of a diff tab.
#[derive(Debug)]
pub enum LeftPane {
    Files(TreePane),
    Stashes(StashTreePane),
}

/// The right pane of a diff tab.
#[derive(Debug)]
pub enum RightPane {
    File(DiffPane),
    Stash(StashDiffPane),
}

/// A frame of a diff tab.
#[derive(Debug)]
pub struct ExplorerFrame {
    /// The horizontal scroll position starts anew.
    pub reset: bool,
    pub header: DiffHeader,
    pub action_banner: Option<ModeBanner>,
    pub mode_banner: Option<ModeBanner>,
    pub left: LeftPane,
    pub right: RightPane,
}

/// What a diff tab shows.
#[derive(Debug)]
pub enum ExplorerContent {
    /// The tab was closed.
    Missing(PanelMessage),
    Tab(ExplorerFrame),
}

/// The frame shows the tab with what the view keeps.
pub open spec fn shows_tab(
    frame: ExplorerFrame,
    view: DiffExplorerView,
    palette: OrcaTheme,
    snap: DiffRenderSnapshot,
    live: Option<&GitSnapshotSummary>,
    oversize_message: Seq<char>,
) -> bool {
    let latest = match live {
        Some(live) => Some(live.generation),
        None => None,
    };
    let kept_oversize = match view.stash_line_cache {
        Some(cached) => Some(cached.is_oversize),
        None => None,
    };
    &&& diff_header::shows_header(frame.header, palette, snap, live, view.scope_root@)
    &&& diff_panes::shows_last_action(frame.action_banner, palette, snap)
    &&& diff_panes::shows_mode(frame.mode_banner, palette, snap)
    &&& match snap.tab.view_mode {
        DiffTabViewMode::WorkingTree => {
            &&& frame.left matches LeftPane::Files(pane) && pane@ == diff_panes::tree_pane(snap)
            &&& frame.right matches RightPane::File(pane) && pane@ == diff_panes::diff_pane(
                snap,
                latest,
                view.line_cache is Some,
                view.conflict_line_cache is Some,
                oversize_message,
            )
        },
        DiffTabViewMode::Stashes => {
            &&& frame.left matches LeftPane::Stashes(pane) && pane@ == diff_stash::stash_tree_pane(
                snap,
            )
            &&& frame.right matches RightPane::Stash(pane) && pane@ == diff_stash::stash_diff_pane(
                snap,
                kept_oversize,
                oversize_message,
            )
        },
    }
}

impl DiffExplorerView {
    /// Draws a diff tab: all that is kept is brought up to date, and below the header and the
    /// banners stand the files and the diff, or the stashes and the selected one.
    pub fn render<
        S: Fn(u64, &str) -> (u64, Vec<HighlightedSpan>),
        T: Fn(&str) -> Option<Vec<HighlightedSpan>>,
    >(
        &mut self,
        palette: &OrcaTheme,
        snap: Option<&DiffRenderSnapshot>,
        live: Option<&GitSnapshotSummary>,
        theme_id: ThemeId,
        oversize_message: &str,
        highlighter: &LineHighlighter<S, T>,
    ) -> (content: ExplorerContent)
        requires
            highlighter.sound(),
            snap is Some ==> old(self).ready_for(*snap->0, theme_id, *highlighter),
        ensures
            match (snap, content) {
                (Some(snap), ExplorerContent::Tab(frame)) => {
                    &&& frame.reset == old(self).restarts(*snap, theme_id)
                    &&& final(self).follows(
                        *old(self),
                        *snap,
                        theme_id,
                        oversize_message@,
                        *highlighter,
                    )
                    &&& final(self).ready_for(*snap, theme_id, *highlighter)
                    &&& shows_tab(
                        frame,
                        *final(self),
                        *palette,
                        *snap,
                        live,
                        oversize_message@,
                    )
                },
                (None, ExplorerContent::Missing(message)) => *final(self) == *old(self)
                    && message@ == widgets::panel_text(
                    "Diff tab closed"@,
                    "Re-open the diff explorer from a git-backed terminal row."@,
                ),
                _ => false,
            },
    {
        let snap = match snap {
            Some(snap) => snap,
            None => {
                return ExplorerContent::Missing(missing_tab_message());
            },
        };
        let reset = self.prepare_frame(snap, theme_id, oversize_message, highlighter);
        let (left, right) = match snap.tab.view_mode {
            DiffTabViewMode::WorkingTree => {
                let latest: Option<u64> = match live {
                    Some(live) => Some(live.generation),
                    None => None,
                };
                (
                    LeftPane::Files(diff_panes::render_tree_pane(snap)),
                    RightPane::File(
                        diff_panes::render_diff_pane(
                            snap,
                            latest,
                            self.line_cache.is_some(),
                            self.conflict_line_cache.is_some(),
                            oversize_message,
                        ),
                    ),
                )
            },
            DiffTabViewMode::Stashes => {
                let kept_oversize: Option<bool> = match &self.stash_line_cache {
                    Some(cached) => Some(cached.is_oversize),
                    None => None,
                };
                (
                    LeftPane::Stashes(diff_stash::render_stash_tree_pane(snap)),
                    RightPane::Stash(
                        diff_stash::render_stash_diff_pane(snap, kept_oversize, oversize_message),
                    ),
                )
            },
        };
        ExplorerContent::Tab(
            ExplorerFrame {
                reset,
                header: diff_header::render_header(palette, snap, live, self.scope_root.as_str()),
                action_banner: diff_panes::render_action_banner(palette, snap),
                mode_banner: diff_panes::render_mode_banner(palette, snap),
                left,
                right,
            },
        )
    }
}

/// What is shown where the tab was closed.
pub fn missing_tab_message() -> (message: PanelMessage)
    ensures
        message@ == widgets::panel_text(
            "Diff tab closed"@,
            "Re-open the diff explorer from a git-backed terminal row."@,
        ),
{
    widgets::panel_message(
        "Diff tab closed",
        "Re-open the diff explorer from a git-backed terminal row.",
    )
}

/// A tab that is drawn again with nothing changed keeps all that it kept.
pub proof fn redrawing_keeps_everything<
    S: Fn(u64, &str) -> (u64, Vec<HighlightedSpan>),
    T: Fn(&str) -> Option<Vec<HighlightedSpan>>,
>(
    before: DiffExplorerView,
    first: DiffExplorerView,
    second: DiffExplorerView,
    snap: DiffRenderSnapshot,
    theme_id: ThemeId,
    oversize_message: Seq<char>,
    highlighter: LineHighlighter<S, T>,
)
    requires
        first.follows(before, snap, theme_id, oversize_message, highlighter),
        second.follows(first, snap, theme_id, oversize_message, highlighter),
    ensures
        second == first,
{
}

/// A selection that is being dragged reaches from where it began to the pointer. Once the drag is
/// released, the selection stays and the pointer no longer moves it.
pub proof fn released_selection_stays(
    dragging: &mut DiffExplorerView,
    releasing: &mut DiffExplorerView,
    later: &mut DiffExplorerView,
    position: DiffPosition,
    other: DiffPosition,
    dragged: bool,
    released: bool,
    again: bool,
)
    requires
        old(dragging).selection is Some,
        old(dragging).selection->0.is_selecting,
        call_ensures(DiffExplorerView::drag_selection, (dragging, position), dragged),
        call_ensures(DiffExplorerView::release_drag, (releasing,), released),
        call_ensures(DiffExplorerView::drag_selection, (later, other), again),
    ensures
        dragged,
        final(dragging).selection is Some,
        final(dragging).selection->0.start == old(dragging).selection->0.start,
        final(dragging).selection->0.end == position,
        *old(releasing) == *final(dragging) ==> {
            &&& released
            &&& final(releasing).selection is Some
            &&& final(releasing).selection->0.start == old(dragging).selection->0.start
            &&& final(releasing).selection->0.end == position
            &&& *old(later) == *final(releasing) ==> !again && *final(later) == *final(releasing)
        },
{
}

/// Where no conflicted file is selected, only the key for copying does something.
pub proof fn keys_without_a_conflict_only_copy(
    snap: Option<&DiffRenderSnapshot>,
    key: &str,
    modifiers: &Modifiers,
    key_char: &Option<String>,
    is_macos: bool,
    action: ExplorerKey,
)
    requires
        call_ensures(DiffExplorerView::key_down, (snap, key, modifiers, key_char, is_macos), action),
    ensures
        snap is None ==> !(action is Conflict),
        snap is Some && !(snap->0.tab.view_mode is WorkingTree && snap->0.tab.selected_file is Some
            && snap->0.tab.selected_file->0.section is Conflicted) ==> !(action is Conflict),
        action is Copy ==> key@ == "c"@ && (modifiers.platform || modifiers.control),
        !(action is Conflict) && key@ == "c"@ && (modifiers.platform || modifiers.control)
            ==> action is Copy,
{
}

/// A redraw keeps the selection unless the shown lines were made anew, and never moves it.
pub proof fn redrawing_never_moves_the_selection<
    S: Fn(u64, &str) -> (u64, Vec<HighlightedSpan>),
    T: Fn(&str) -> Option<Vec<HighlightedSpan>>,
>(
    after: DiffExplorerView,
    before: DiffExplorerView,
    snap: DiffRenderSnapshot,
    theme_id: ThemeId,
    oversize_message: Seq<char>,
    highlighter: LineHighlighter<S, T>,
)
    requires
        after.follows(before, snap, theme_id, oversize_message, highlighter),
    ensures
        after.selection is None || after.selection == before.selection,
        after.selection is Some ==> !before.restarts(snap, theme_id),
        after.has_commit_input ==> before.has_commit_input && snap.staged_file_count > 0,
        after.line_cache is Some && snap.tab.file.document is Some ==> after.line_cache->0.generation
            == snap.tab.file.document->0.generation,
{
}

} // verus!
