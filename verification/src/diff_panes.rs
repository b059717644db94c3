//! What the panes of a diff tab show.

use crate::conflict_document;
use crate::conflict_document::{ConflictAcceptChoice, ConflictEditorDocument};
use crate::diff_cache;
use crate::diff_rows;
use crate::diff_rows::{FileHeader, FileHeaderView};
use crate::diff_state;
use crate::diff_state::{ConflictDocumentState, DiffRenderSnapshot, DiffTabViewMode};
use crate::model::{DiffSectionKind, GitFileStatus};
use crate::strings;
use crate::theme::{OrcaTheme, Tint};
use crate::widgets;
use crate::widgets::{BannerLook, PanelMessage, PanelText};
use vstd::prelude::*;
use vstd::string::*;

verus! {

/// An entry of the pane of changed files.
#[derive(Clone, Copy, Debug, PartialEq, Eq, Structural)]
pub enum TreePaneEntry {
    /// The buttons that stage, unstage and commit.
    ActionBar,
    /// The heading and the tree of a section.
    Section(DiffSectionKind),
    /// The field for the commit message.
    CommitInput,
    /// What went wrong with the index.
    IndexError,
}

/// The pane of changed files.
#[derive(Debug)]
pub enum TreePane {
    Stashes,
    Message(PanelMessage),
    Entries(Vec<TreePaneEntry>),
}

/// What the pane of changed files shows.
pub enum TreePaneView {
    Stashes,
    Message(PanelText),
    Entries(Seq<TreePaneEntry>),
}

impl View for TreePane {
    type V = TreePaneView;

    open spec fn view(&self) -> TreePaneView {
        match self {
            TreePane::Stashes => TreePaneView::Stashes,
            TreePane::Message(message) => TreePaneView::Message(message@),
            TreePane::Entries(entries) => TreePaneView::Entries(entries@),
        }
    }
}

/// The entry, where it is shown.
pub open spec fn shown_if(shown: bool, entry: TreePaneEntry) -> Seq<TreePaneEntry> {
    if shown {
        seq![entry]
    } else {
        Seq::empty()
    }
}

/// What the pane of changed files shows.
pub open spec fn tree_pane(snap: DiffRenderSnapshot) -> TreePaneView {
    if snap.tab.view_mode == DiffTabViewMode::Stashes {
        TreePaneView::Stashes
    } else if !snap.has_index && snap.tab.index.loading {
        TreePaneView::Message(
            widgets::panel_text(
                "Loading diff index..."@,
                "Git is collecting the changed-file tree for this scope."@,
            ),
        )
    } else if !snap.has_index && snap.tab.index.error is Some {
        TreePaneView::Message(
            widgets::panel_text("Could not load diff index"@, snap.tab.index.error->0@),
        )
    } else if !snap.has_index {
        TreePaneView::Message(
            widgets::panel_text(
                "Diff index unavailable"@,
                "Open the diff tab from a git-backed terminal row."@,
            ),
        )
    } else if snap.index_file_count == 0 {
        TreePaneView::Message(
            widgets::panel_text(
                "Working tree clean"@,
                "No changed files are available for this scope."@,
            ),
        )
    } else {
        let supported = snap.merge_state is None && snap.repo_state_warning is None;
        TreePaneView::Entries(
            shown_if(supported, TreePaneEntry::ActionBar) + shown_if(
                snap.conflicted_file_count > 0,
                TreePaneEntry::Section(DiffSectionKind::Conflicted),
            ) + shown_if(
                supported && snap.staged_file_count > 0,
                TreePaneEntry::CommitInput,
            ) + shown_if(
                snap.repo_state_warning is None && snap.staged_file_count > 0,
                TreePaneEntry::Section(DiffSectionKind::Staged),
            ) + shown_if(
                snap.unstaged_file_count > 0,
                TreePaneEntry::Section(DiffSectionKind::Unstaged),
            ) + shown_if(snap.tab.index.error is Some, TreePaneEntry::IndexError),
        )
    }
}

/// The pane of changed files: conflicts first, then the commit message, then what is staged, then
/// what is not. A commit message and the buttons are there only where a commit can be made.
pub fn render_tree_pane(snap: &DiffRenderSnapshot) -> (pane: TreePane)
    ensures
        pane@ == tree_pane(*snap),
{
    if snap.tab.view_mode == DiffTabViewMode::Stashes {
        return TreePane::Stashes;
    }
    if !snap.has_index {
        if snap.tab.index.loading {
            return TreePane::Message(
                widgets::panel_message(
                    "Loading diff index...",
                    "Git is collecting the changed-file tree for this scope.",
                ),
            );
        }
        return TreePane::Message(
            match &snap.tab.index.error {
                Some(error) => widgets::panel_message(
                    "Could not load diff index",
                    error.as_str(),
                ),
                None => widgets::panel_message(
                    "Diff index unavailable",
                    "Open the diff tab from a git-backed terminal row.",
                ),
            },
        );
    }
    if snap.index_file_count == 0 {
        return TreePane::Message(
            widgets::panel_message(
                "Working tree clean",
                "No changed files are available for this scope.",
            ),
        );
    }
    let mut entries: Vec<TreePaneEntry> = Vec::new();
    if snap.merge_state.is_none() && snap.repo_state_warning.is_none() {
        entries.push(TreePaneEntry::ActionBar);
    }
    if snap.conflicted_file_count > 0 {
        entries.push(TreePaneEntry::Section(DiffSectionKind::Conflicted));
    }
    if snap.show_commit_input() {
        entries.push(TreePaneEntry::CommitInput);
    }
    if snap.show_staged_section() {
        entries.push(TreePaneEntry::Section(DiffSectionKind::Staged));
    }
    if snap.unstaged_file_count > 0 {
        entries.push(TreePaneEntry::Section(DiffSectionKind::Unstaged));
    }
    if snap.tab.index.error.is_some() {
        entries.push(TreePaneEntry::IndexError);
    }
    assert(entries@ =~= tree_pane(*snap)->Entries_0);
    TreePane::Entries(entries)
}

/// The heading of a section of changed files.
pub fn tree_section_heading(snap: &DiffRenderSnapshot, section: DiffSectionKind) -> (heading:
    String)
    ensures
        heading@ == match section {
            DiffSectionKind::Conflicted => "CONFLICTS"@ + " ("@ + strings::decimal(
                snap.conflicted_file_count as nat,
            ) + ")"@,
            DiffSectionKind::Staged => "STAGED CHANGES"@ + " ("@ + strings::decimal(
                snap.staged_file_count as nat,
            ) + ")"@,
            DiffSectionKind::Unstaged => "CHANGES"@ + " ("@ + strings::decimal(
                snap.unstaged_file_count as nat,
            ) + ")"@,
        },
{
    match section {
        DiffSectionKind::Conflicted => widgets::section_header(
            "CONFLICTS",
            snap.conflicted_file_count,
        ),
        DiffSectionKind::Staged => widgets::section_header(
            "STAGED CHANGES",
            snap.staged_file_count,
        ),
        DiffSectionKind::Unstaged => widgets::section_header("CHANGES", snap.unstaged_file_count),
    }
}

/// Whether the field for the commit message is emptied: the message was cleared elsewhere and the
/// field still holds it.
pub fn commit_input_cleared(snap: &DiffRenderSnapshot, input_value: &str) -> (cleared: bool)
    ensures
        cleared == (snap.tab.commit_message@.len() == 0 && input_value@.len() > 0),
{
    snap.tab.commit_message.as_str().is_empty() && !input_value.is_empty()
}

/// Whether a key in the field for the commit message edits it.
pub fn commit_input_takes_key(key: &str) -> (takes: bool)
    ensures
        takes == (key@ != "enter"@ && key@ != "escape"@),
{
    !strings::same_text(key, "enter") && !strings::same_text(key, "escape")
}

/// The banner above the panes.
#[derive(Debug)]
pub struct ModeBanner {
    pub message: String,
    pub look: BannerLook,
}

/// How the banner above the panes looks.
pub open spec fn mode_banner_look(palette: OrcaTheme, border_alpha: u8) -> BannerLook {
    BannerLook {
        fill: Tint { color: palette.STATUS_AMBER, alpha: 0x12 },
        border: Tint { color: palette.STATUS_AMBER, alpha: border_alpha },
        text: palette.STATUS_AMBER,
    }
}

fn mode_banner(palette: &OrcaTheme, message: String, border_alpha: u8) -> (banner: ModeBanner)
    ensures
        banner.message@ == message@,
        banner.look == mode_banner_look(*palette, border_alpha),
{
    ModeBanner {
        message,
        look: BannerLook {
            fill: Tint { color: palette.STATUS_AMBER, alpha: 0x12 },
            border: Tint { color: palette.STATUS_AMBER, alpha: border_alpha },
            text: palette.STATUS_AMBER,
        },
    }
}

/// The banner above the panes says what is wrong with the repository, or how to go through a merge.
pub open spec fn shows_mode(
    banner: Option<ModeBanner>,
    palette: OrcaTheme,
    snap: DiffRenderSnapshot,
) -> bool {
    match (snap.repo_state_warning, snap.merge_state) {
        (Some(warning), _) => banner is Some && banner->0.message@ == warning@ && banner->0.look
            == mode_banner_look(palette, 0x30),
        (None, Some(_)) => banner is Some && banner->0.message@
            == "Open each C file, resolve it in the conflict editor, save it, then mark it resolved."@
            && banner->0.look == mode_banner_look(palette, 0x24),
        (None, None) => banner is None,
    }
}

/// The banner above the panes.
pub fn render_mode_banner(palette: &OrcaTheme, snap: &DiffRenderSnapshot) -> (banner: Option<
    ModeBanner,
>)
    ensures
        shows_mode(banner, *palette, *snap),
{
    if let Some(warning) = &snap.repo_state_warning {
        return Some(mode_banner(palette, warning.clone(), 0x30));
    }
    if snap.merge_state.is_some() {
        let message = "Open each C file, resolve it in the conflict editor, save it, then mark it resolved.".to_owned();
        return Some(mode_banner(palette, message, 0x24));
    }
    None
}

/// The banner says what came of the last action.
pub open spec fn shows_last_action(
    banner: Option<ModeBanner>,
    palette: OrcaTheme,
    snap: DiffRenderSnapshot,
) -> bool {
    match (banner, snap.tab.last_action_banner) {
        (Some(shown), Some(last)) => shown.message@ == last.message@ && shown.look
            == widgets::tab_banner_look(palette, last.kind),
        (None, None) => true,
        _ => false,
    }
}

/// The banner that says what came of the last action. It can be dismissed.
pub fn render_action_banner(palette: &OrcaTheme, snap: &DiffRenderSnapshot) -> (banner: Option<
    ModeBanner,
>)
    ensures
        shows_last_action(banner, *palette, *snap),
{
    match &snap.tab.last_action_banner {
        Some(last) => Some(
            ModeBanner {
                message: last.message.clone(),
                look: widgets::diff_banner_look(palette, last.kind),
            },
        ),
        None => None,
    }
}

/// The pane of the selected file.
#[derive(Debug)]
pub enum DiffPane {
    Stashes,
    Message(PanelMessage),
    /// A conflicted file that the editor could not load, and why.
    ConflictUnavailable { header: FileHeader, message: PanelMessage },
    /// A conflicted file in the editor.
    ConflictEditor,
    /// A diff that is too large. The button that discards the file's changes is disabled, enabled
    /// or absent.
    Oversize { header: FileHeader, message: PanelMessage, discard_disabled: Option<bool> },
    /// The lines of a diff.
    Lines { header: FileHeader, discard_disabled: Option<bool>, hunk_actions: bool },
}

/// What the pane of the selected file shows.
pub enum DiffPaneView {
    Stashes,
    Message(PanelText),
    ConflictUnavailable { header: FileHeaderView, message: PanelText },
    ConflictEditor,
    Oversize { header: FileHeaderView, message: PanelText, discard_disabled: Option<bool> },
    Lines { header: FileHeaderView, discard_disabled: Option<bool>, hunk_actions: bool },
}

impl View for DiffPane {
    type V = DiffPaneView;

    open spec fn view(&self) -> DiffPaneView {
        match *self {
            DiffPane::Stashes => DiffPaneView::Stashes,
            DiffPane::Message(message) => DiffPaneView::Message(message@),
            DiffPane::ConflictUnavailable { header, message } => {
                DiffPaneView::ConflictUnavailable { header: header@, message: message@ }
            },
            DiffPane::ConflictEditor => DiffPaneView::ConflictEditor,
            DiffPane::Oversize { header, message, discard_disabled } => DiffPaneView::Oversize {
                header: header@,
                message: message@,
                discard_disabled,
            },
            DiffPane::Lines { header, discard_disabled, hunk_actions } => DiffPaneView::Lines {
                header: header@,
                discard_disabled,
                hunk_actions,
            },
        }
    }
}

/// The pane of a conflicted file.
pub open spec fn conflict_pane(
    snap: DiffRenderSnapshot,
    path: Seq<Seq<char>>,
    has_conflict_lines: bool,
) -> DiffPaneView {
    match diff_cache::conflict_entry(snap.tab.conflict_documents@, path) {
        None => DiffPaneView::Message(
            widgets::panel_text(
                "Conflict unavailable"@,
                "The selected conflict file is no longer available."@,
            ),
        ),
        Some(entry) => match snap.tab.conflict_documents@[entry].state {
            ConflictDocumentState::Unavailable { file, message } => {
                DiffPaneView::ConflictUnavailable {
                    header: diff_rows::file_header(file, Some(message@)),
                    message: widgets::panel_text("Conflict editor unavailable"@, message@),
                }
            },
            ConflictDocumentState::Loaded(_) => if has_conflict_lines {
                DiffPaneView::ConflictEditor
            } else {
                DiffPaneView::Message(
                    widgets::panel_text(
                        "Loading conflict editor..."@,
                        "The conflicted file is still hydrating."@,
                    ),
                )
            },
        },
    }
}

/// The changes of a file of this status cannot be discarded one file or hunk at a time.
pub open spec fn discards_whole_only(status: GitFileStatus) -> bool {
    status == GitFileStatus::Renamed || status == GitFileStatus::Typechange
}

/// The changes of the shown file cannot be discarded now.
pub open spec fn discard_blocked(snap: DiffRenderSnapshot, latest: Option<u64>) -> bool {
    ||| snap.in_flight()
    ||| snap.merge_state is Some
    ||| snap.repo_state_warning is Some
    ||| snap.file_generation is Some && latest is Some && snap.file_generation->0 < latest->0
    ||| snap.file_meta is Some && discards_whole_only(snap.file_meta->0.status)
}

/// The button that discards the changes of the shown file: there for an unstaged file whose diff
/// is the one that is loaded.
pub open spec fn discard_button(snap: DiffRenderSnapshot, latest: Option<u64>) -> Option<bool> {
    if snap.tab.selected_file is Some && snap.tab.selected_file->0.section
        == DiffSectionKind::Unstaged && snap.file_generation is Some && snap.file_selection is Some
        && snap.file_selection->0@ == snap.tab.selected_file->0@ {
        Some(discard_blocked(snap, latest))
    } else {
        None
    }
}

/// What the pane of the selected file shows.
pub open spec fn diff_pane(
    snap: DiffRenderSnapshot,
    latest: Option<u64>,
    has_lines: bool,
    has_conflict_lines: bool,
    oversize_message: Seq<char>,
) -> DiffPaneView {
    let selected = snap.tab.selected_file;
    let header = diff_rows::file_header(
        snap.file_meta->0,
        strings::optional_view(snap.tab.file.error),
    );
    let pick = DiffPaneView::Message(
        widgets::panel_text("Select a file"@, "Pick a changed file from the left pane."@),
    );
    if snap.tab.view_mode == DiffTabViewMode::Stashes {
        DiffPaneView::Stashes
    } else if !snap.has_index && snap.tab.index.loading {
        DiffPaneView::Message(
            widgets::panel_text("Loading diff..."@, "The changed-file tree is still loading."@),
        )
    } else if !snap.has_index && snap.tab.index.error is Some {
        DiffPaneView::Message(
            widgets::panel_text("Could not load diff"@, snap.tab.index.error->0@),
        )
    } else if !snap.has_index {
        DiffPaneView::Message(
            widgets::panel_text(
                "No diff loaded"@,
                "Select a git-backed terminal row and open its diff explorer."@,
            ),
        )
    } else if snap.index_file_count == 0 {
        DiffPaneView::Message(
            widgets::panel_text(
                "Working tree clean"@,
                "There are no file changes to render."@,
            ),
        )
    } else if selected is None {
        pick
    } else if selected->0.section == DiffSectionKind::Conflicted {
        conflict_pane(snap, selected->0.relative_path@, has_conflict_lines)
    } else if snap.tab.file.loading && (snap.file_meta is None
        || snap.file_meta->0.relative_path@ != selected->0.relative_path@) {
        DiffPaneView::Message(
            widgets::panel_text(
                "Loading file diff..."@,
                "The selected file patch is still hydrating."@,
            ),
        )
    } else if snap.file_meta is None && snap.tab.file.error is Some {
        DiffPaneView::Message(
            widgets::panel_text("Could not load file diff"@, snap.tab.file.error->0@),
        )
    } else if snap.file_meta is None {
        pick
    } else if snap.is_oversize {
        DiffPaneView::Oversize {
            header,
            message: widgets::oversize_text(oversize_message),
            discard_disabled: discard_button(snap, latest),
        }
    } else if !has_lines {
        pick
    } else {
        DiffPaneView::Lines {
            header,
            discard_disabled: discard_button(snap, latest),
            hunk_actions: selected->0.section == DiffSectionKind::Unstaged && !discard_blocked(
                snap,
                latest,
            ) && snap.tab.file.error is None,
        }
    }
}

fn pick_a_file() -> (pane: DiffPane)
    ensures
        pane@ == DiffPaneView::Message(
            widgets::panel_text("Select a file"@, "Pick a changed file from the left pane."@),
        ),
{
    DiffPane::Message(
        widgets::panel_message("Select a file", "Pick a changed file from the left pane."),
    )
}

fn render_conflict_pane(
    snap: &DiffRenderSnapshot,
    path: &crate::model::RelativePath,
    has_conflict_lines: bool,
) -> (pane: DiffPane)
    ensures
        pane@ == conflict_pane(*snap, path@, has_conflict_lines),
{
    match diff_cache::find_conflict_entry(&snap.tab.conflict_documents, path) {
        None => DiffPane::Message(
            widgets::panel_message(
                "Conflict unavailable",
                "The selected conflict file is no longer available.",
            ),
        ),
        Some(entry) => match &snap.tab.conflict_documents[entry].state {
            ConflictDocumentState::Unavailable { file, message } => DiffPane::ConflictUnavailable {
                header: diff_rows::diff_file_header(file, Some(message.as_str())),
                message: widgets::panel_message("Conflict editor unavailable", message.as_str()),
            },
            ConflictDocumentState::Loaded(_) => if has_conflict_lines {
                DiffPane::ConflictEditor
            } else {
                DiffPane::Message(
                    widgets::panel_message(
                        "Loading conflict editor...",
                        "The conflicted file is still hydrating.",
                    ),
                )
            },
        },
    }
}

fn is_discard_blocked(snap: &DiffRenderSnapshot, latest: Option<u64>) -> (blocked: bool)
    ensures
        blocked == discard_blocked(*snap, latest),
{
    let whole_only = match &snap.file_meta {
        Some(file) => file.status == GitFileStatus::Renamed || file.status
            == GitFileStatus::Typechange,
        None => false,
    };
    snap.any_action_in_flight() || snap.merge_state.is_some() || snap.repo_state_warning.is_some()
        || diff_state::is_displayed_file_stale(snap.file_generation, latest) || whole_only
}

fn find_discard_button(snap: &DiffRenderSnapshot, latest: Option<u64>) -> (button: Option<bool>)
    ensures
        button == discard_button(*snap, latest),
{
    if let (Some(selected), Some(loaded)) = (&snap.tab.selected_file, &snap.file_selection) {
        if selected.section == DiffSectionKind::Unstaged && snap.file_generation.is_some()
            && loaded.same_key(selected) {
            return Some(is_discard_blocked(snap, latest));
        }
    }
    None
}

/// The message of the diff pane while the index has no files to show.
fn index_message(snap: &DiffRenderSnapshot) -> (message: Option<PanelMessage>)
    requires
        snap.tab.view_mode == DiffTabViewMode::WorkingTree,
    ensures
        message is Some ==> forall|latest: Option<u64>, lines: bool, conflict: bool, text: Seq<char>| #[trigger]
            diff_pane(*snap, latest, lines, conflict, text) == DiffPaneView::Message(message->0@),
        message is None == (snap.has_index && snap.index_file_count > 0),
{
    if !snap.has_index {
        if snap.tab.index.loading {
            return Some(
                widgets::panel_message(
                    "Loading diff...",
                    "The changed-file tree is still loading.",
                ),
            );
        }
        return Some(
            match &snap.tab.index.error {
                Some(error) => widgets::panel_message("Could not load diff", error.as_str()),
                None => widgets::panel_message(
                    "No diff loaded",
                    "Select a git-backed terminal row and open its diff explorer.",
                ),
            },
        );
    }
    if snap.index_file_count == 0 {
        return Some(
            widgets::panel_message("Working tree clean", "There are no file changes to render."),
        );
    }
    None
}

/// The pane of the selected file: its diff, the conflict editor, or why there is neither.
pub fn render_diff_pane(
    snap: &DiffRenderSnapshot,
    latest: Option<u64>,
    has_lines: bool,
    has_conflict_lines: bool,
    oversize_message: &str,
) -> (pane: DiffPane)
    ensures
        pane@ == diff_pane(*snap, latest, has_lines, has_conflict_lines, oversize_message@),
{
    if snap.tab.view_mode == DiffTabViewMode::Stashes {
        return DiffPane::Stashes;
    }
    if let Some(message) = index_message(snap) {
        return DiffPane::Message(message);
    }
    let selected = match &snap.tab.selected_file {
        Some(selected) => selected,
        None => {
            return pick_a_file();
        },
    };
    if selected.section == DiffSectionKind::Conflicted {
        return render_conflict_pane(snap, &selected.relative_path, has_conflict_lines);
    }
    let shows_selected = match &snap.file_meta {
        Some(file) => file.relative_path.same_path(&selected.relative_path),
        None => false,
    };
    if snap.tab.file.loading && !shows_selected {
        return DiffPane::Message(
            widgets::panel_message(
                "Loading file diff...",
                "The selected file patch is still hydrating.",
            ),
        );
    }
    let file = match &snap.file_meta {
        Some(file) => file,
        None => {
            return match &snap.tab.file.error {
                Some(error) => DiffPane::Message(
                    widgets::panel_message("Could not load file diff", error.as_str()),
                ),
                None => pick_a_file(),
            };
        },
    };
    let header = match &snap.tab.file.error {
        Some(error) => diff_rows::diff_file_header(file, Some(error.as_str())),
        None => diff_rows::diff_file_header(file, None),
    };
    let discard_disabled = find_discard_button(snap, latest);
    if snap.is_oversize {
        return DiffPane::Oversize {
            header,
            message: widgets::oversize_panel(oversize_message),
            discard_disabled,
        };
    }
    if !has_lines {
        return pick_a_file();
    }
    DiffPane::Lines {
        header,
        discard_disabled,
        hunk_actions: selected.section == DiffSectionKind::Unstaged && !is_discard_blocked(
            snap,
            latest,
        ) && snap.tab.file.error.is_none(),
    }
}

/// What a button of the conflict editor does.
#[derive(Clone, Copy, Debug, PartialEq, Eq, Structural)]
pub enum ConflictAction {
    Previous,
    Next,
    Accept(ConflictAcceptChoice),
    Save,
    Reset,
    MarkResolved,
}

/// A button of the conflict editor.
#[derive(Clone, Copy, Debug, PartialEq, Eq, Structural)]
pub struct ConflictButton {
    pub action: ConflictAction,
    pub disabled: bool,
}

/// What a button of the conflict editor says.
pub fn conflict_action_label(action: ConflictAction) -> (label: &'static str)
    ensures
        label@ == match action {
            ConflictAction::Previous => "Prev"@,
            ConflictAction::Next => "Next"@,
            ConflictAction::Accept(ConflictAcceptChoice::Ours) => "Accept Ours"@,
            ConflictAction::Accept(ConflictAcceptChoice::Theirs) => "Accept Theirs"@,
            ConflictAction::Accept(ConflictAcceptChoice::Both) => "Accept Both"@,
            ConflictAction::Accept(ConflictAcceptChoice::Base) => "Accept Base"@,
            ConflictAction::Save => "Save"@,
            ConflictAction::Reset => "Reset"@,
            ConflictAction::MarkResolved => "Mark Resolved"@,
        },
{
    match action {
        ConflictAction::Previous => "Prev",
        ConflictAction::Next => "Next",
        ConflictAction::Accept(ConflictAcceptChoice::Ours) => "Accept Ours",
        ConflictAction::Accept(ConflictAcceptChoice::Theirs) => "Accept Theirs",
        ConflictAction::Accept(ConflictAcceptChoice::Both) => "Accept Both",
        ConflictAction::Accept(ConflictAcceptChoice::Base) => "Accept Base",
        ConflictAction::Save => "Save",
        ConflictAction::Reset => "Reset",
        ConflictAction::MarkResolved => "Mark Resolved",
    }
}

/// The row above the conflict editor.
#[derive(Debug)]
pub struct ConflictStatusRow {
    pub path: String,
    pub previous_disabled: bool,
    pub next_disabled: bool,
    pub position: String,
}

/// The position of the active block, counted from one. Without one it is zero.
pub open spec fn active_position(document: ConflictEditorDocument) -> nat {
    match document.active_block_index {
        Some(index) => index as nat + 1,
        None => 0,
    }
}

/// The row above the conflict editor: the file, the buttons to the block before and after the
/// active one, and how many blocks there are.
pub fn render_conflict_status_row(document: &ConflictEditorDocument) -> (row: ConflictStatusRow)
    requires
        document.active_block_index is Some ==> document.active_block_index->0 < usize::MAX,
    ensures
        row.path@ == crate::model::path_text(document.file.relative_path@),
        row.previous_disabled == (document.blocks@.len() == 0
            || document.active_block_index == Some(0usize)),
        row.next_disabled == (document.blocks@.len() == 0 || (document.active_block_index is Some
            && document.active_block_index->0 + 1 >= document.blocks@.len())),
        row.position@ == strings::decimal(active_position(*document)) + " of "@
            + strings::decimal(document.blocks@.len()) + " conflicts"@,
{
    let block_total = document.blocks.len();
    let active: usize = match document.active_block_index {
        Some(index) => index + 1,
        None => 0,
    };
    let mut position = strings::format_decimal(active as u64);
    position.append(" of ");
    strings::push_decimal(&mut position, block_total as u64);
    position.append(" conflicts");
    ConflictStatusRow {
        path: document.file.relative_path.display(),
        previous_disabled: conflict_document::conflict_block_navigation_disabled(
            block_total,
            document.active_block_index,
            false,
        ),
        next_disabled: conflict_document::conflict_block_navigation_disabled(
            block_total,
            document.active_block_index,
            true,
        ),
        position,
    }
}

/// The buttons below the status row of the conflict editor.
pub open spec fn helper_strip(
    document: ConflictEditorDocument,
    in_flight: bool,
    can_mark_resolved: bool,
) -> Seq<ConflictButton> {
    let block = conflict_document::active_block(document);
    let disabled = block is None || in_flight;
    seq![
        ConflictButton { action: ConflictAction::Accept(ConflictAcceptChoice::Ours), disabled },
        ConflictButton { action: ConflictAction::Accept(ConflictAcceptChoice::Theirs), disabled },
        ConflictButton { action: ConflictAction::Accept(ConflictAcceptChoice::Both), disabled },
    ] + (if block is Some && block->0.base is Some {
        seq![ConflictButton { action: ConflictAction::Accept(ConflictAcceptChoice::Base), disabled }]
    } else {
        Seq::empty()
    }) + seq![
        ConflictButton { action: ConflictAction::Save, disabled: in_flight || !document.is_dirty },
        ConflictButton {
            action: ConflictAction::Reset,
            disabled: in_flight || document.raw_text@ == document.initial_raw_text@,
        },
        ConflictButton { action: ConflictAction::MarkResolved, disabled: !can_mark_resolved },
    ]
}

/// The buttons below the status row of the conflict editor: which side of the active block to
/// take, saving what was edited, going back to the text as it was loaded, and marking conflicts as
/// resolved.
pub fn render_conflict_helper_strip(
    document: &ConflictEditorDocument,
    in_flight: bool,
    can_mark_resolved: bool,
) -> (buttons: Vec<ConflictButton>)
    ensures
        buttons@ == helper_strip(*document, in_flight, can_mark_resolved),
{
    let (has_block, has_base): (bool, bool) = match document.active_block_index {
        Some(index) => if index < document.blocks.len() {
            (true, document.blocks[index].base.is_some())
        } else {
            (false, false)
        },
        None => (false, false),
    };
    let disabled = !has_block || in_flight;
    let unchanged = strings::same_text(
        document.raw_text.as_str(),
        document.initial_raw_text.as_str(),
    );
    let mut buttons: Vec<ConflictButton> = Vec::new();
    buttons.push(
        ConflictButton { action: ConflictAction::Accept(ConflictAcceptChoice::Ours), disabled },
    );
    buttons.push(
        ConflictButton { action: ConflictAction::Accept(ConflictAcceptChoice::Theirs), disabled },
    );
    buttons.push(
        ConflictButton { action: ConflictAction::Accept(ConflictAcceptChoice::Both), disabled },
    );
    if has_base {
        buttons.push(
            ConflictButton { action: ConflictAction::Accept(ConflictAcceptChoice::Base), disabled },
        );
    }
    buttons.push(
        ConflictButton { action: ConflictAction::Save, disabled: in_flight || !document.is_dirty },
    );
    buttons.push(
        ConflictButton { action: ConflictAction::Reset, disabled: in_flight || unchanged },
    );
    buttons.push(
        ConflictButton { action: ConflictAction::MarkResolved, disabled: !can_mark_resolved },
    );
    assert(buttons@ =~= helper_strip(*document, in_flight, can_mark_resolved));
    buttons
}

proof fn lemma_shown(front: Seq<TreePaneEntry>, shown: bool, entry: TreePaneEntry, wanted: TreePaneEntry)
    ensures
        (front + shown_if(shown, entry)).contains(wanted) == (front.contains(wanted) || (shown
            && entry == wanted)),
{
    let all = front + shown_if(shown, entry);
    if front.contains(wanted) {
        let k = choose|k: int| 0 <= k < front.len() && front[k] == wanted;
        assert(all[k] == wanted);
    }
    if shown && entry == wanted {
        assert(all[front.len() as int] == wanted);
    }
    if all.contains(wanted) {
        let k = choose|k: int| 0 <= k < all.len() && all[k] == wanted;
        if k < front.len() {
            assert(front[k] == wanted);
        }
    }
}

/// Every section of changed files that has a file is in the pane, and a section without files is
/// not. Where the state of the repository is not supported what is staged is left out. A commit
/// message is asked for only where a commit can be made.
pub proof fn sections_with_files_are_shown(snap: DiffRenderSnapshot, wanted: TreePaneEntry)
    requires
        tree_pane(snap) is Entries,
    ensures
        tree_pane(snap)->Entries_0.contains(wanted) == match wanted {
            TreePaneEntry::Section(DiffSectionKind::Conflicted) => snap.conflicted_file_count > 0,
            TreePaneEntry::Section(DiffSectionKind::Staged) => snap.staged_file_count > 0
                && snap.repo_state_warning is None,
            TreePaneEntry::Section(DiffSectionKind::Unstaged) => snap.unstaged_file_count > 0,
            TreePaneEntry::CommitInput => snap.staged_file_count > 0
                && snap.repo_state_warning is None && snap.merge_state is None,
            TreePaneEntry::ActionBar => snap.repo_state_warning is None && snap.merge_state is None,
            TreePaneEntry::IndexError => snap.tab.index.error is Some,
        },
{
    let supported = snap.merge_state is None && snap.repo_state_warning is None;
    let staged = snap.repo_state_warning is None && snap.staged_file_count > 0;
    let conflicted = TreePaneEntry::Section(DiffSectionKind::Conflicted);
    let none = Seq::<TreePaneEntry>::empty();
    let a = shown_if(supported, TreePaneEntry::ActionBar);
    let b = a + shown_if(snap.conflicted_file_count > 0, conflicted);
    let c = b + shown_if(supported && snap.staged_file_count > 0, TreePaneEntry::CommitInput);
    let d = c + shown_if(staged, TreePaneEntry::Section(DiffSectionKind::Staged));
    let e = d + shown_if(
        snap.unstaged_file_count > 0,
        TreePaneEntry::Section(DiffSectionKind::Unstaged),
    );
    assert(none + a =~= a);
    lemma_shown(none, supported, TreePaneEntry::ActionBar, wanted);
    lemma_shown(a, snap.conflicted_file_count > 0, conflicted, wanted);
    lemma_shown(
        b,
        supported && snap.staged_file_count > 0,
        TreePaneEntry::CommitInput,
        wanted,
    );
    lemma_shown(c, staged, TreePaneEntry::Section(DiffSectionKind::Staged), wanted);
    lemma_shown(
        d,
        snap.unstaged_file_count > 0,
        TreePaneEntry::Section(DiffSectionKind::Unstaged),
        wanted,
    );
    lemma_shown(e, snap.tab.index.error is Some, TreePaneEntry::IndexError, wanted);
}

/// The place of an entry among the others.
spec fn rank(entry: TreePaneEntry) -> int {
    match entry {
        TreePaneEntry::ActionBar => 0,
        TreePaneEntry::Section(DiffSectionKind::Conflicted) => 1,
        TreePaneEntry::CommitInput => 2,
        TreePaneEntry::Section(DiffSectionKind::Staged) => 3,
        TreePaneEntry::Section(DiffSectionKind::Unstaged) => 4,
        TreePaneEntry::IndexError => 5,
    }
}

/// The entries stand in order, each below a limit.
#[verifier::opaque]
spec fn ranked(entries: Seq<TreePaneEntry>, limit: int) -> bool {
    &&& forall|i: int| 0 <= i < entries.len() ==> rank(#[trigger] entries[i]) < limit
    &&& forall|i: int, j: int|
        0 <= i < j < entries.len() ==> rank(#[trigger] entries[i]) < rank(#[trigger] entries[j])
}

proof fn lemma_ranked(front: Seq<TreePaneEntry>, shown: bool, entry: TreePaneEntry)
    requires
        front.len() == 0 || ranked(front, rank(entry)),
    ensures
        ranked(front + shown_if(shown, entry), rank(entry) + 1),
{
    reveal(ranked);
    let all = front + shown_if(shown, entry);
    assert forall|i: int| 0 <= i < all.len() implies all[i] == if i < front.len() {
        front[i]
    } else {
        entry
    } by {}
    assert forall|i: int, j: int| 0 <= i < j < all.len() implies rank(#[trigger] all[i]) < rank(
        #[trigger] all[j],
    ) by {
        if j < front.len() {
            assert(rank(front[i]) < rank(front[j]));
        } else {
            assert(rank(front[i]) < rank(entry));
        }
    }
}

/// Conflicts stand above what is staged, and that above what is not.
pub proof fn sections_stand_in_order(snap: DiffRenderSnapshot, upper: int, lower: int)
    requires
        tree_pane(snap) is Entries,
        0 <= upper < tree_pane(snap)->Entries_0.len(),
        0 <= lower < tree_pane(snap)->Entries_0.len(),
        ({
            let above = tree_pane(snap)->Entries_0[upper];
            let below = tree_pane(snap)->Entries_0[lower];
            ||| above == TreePaneEntry::Section(DiffSectionKind::Conflicted) && below
                == TreePaneEntry::Section(DiffSectionKind::Staged)
            ||| above == TreePaneEntry::Section(DiffSectionKind::Conflicted) && below
                == TreePaneEntry::Section(DiffSectionKind::Unstaged)
            ||| above == TreePaneEntry::Section(DiffSectionKind::Staged) && below
                == TreePaneEntry::Section(DiffSectionKind::Unstaged)
        }),
    ensures
        upper < lower,
{
    let entries = tree_pane(snap)->Entries_0;
    let supported = snap.merge_state is None && snap.repo_state_warning is None;
    let staged = snap.repo_state_warning is None && snap.staged_file_count > 0;
    let conflicted = TreePaneEntry::Section(DiffSectionKind::Conflicted);
    let none = Seq::<TreePaneEntry>::empty();
    let a = shown_if(supported, TreePaneEntry::ActionBar);
    let b = a + shown_if(snap.conflicted_file_count > 0, conflicted);
    let c = b + shown_if(supported && snap.staged_file_count > 0, TreePaneEntry::CommitInput);
    let d = c + shown_if(staged, TreePaneEntry::Section(DiffSectionKind::Staged));
    let e = d + shown_if(
        snap.unstaged_file_count > 0,
        TreePaneEntry::Section(DiffSectionKind::Unstaged),
    );
    assert(none + a =~= a);
    lemma_ranked(none, supported, TreePaneEntry::ActionBar);
    lemma_ranked(a, snap.conflicted_file_count > 0, conflicted);
    lemma_ranked(b, supported && snap.staged_file_count > 0, TreePaneEntry::CommitInput);
    lemma_ranked(c, staged, TreePaneEntry::Section(DiffSectionKind::Staged));
    lemma_ranked(
        d,
        snap.unstaged_file_count > 0,
        TreePaneEntry::Section(DiffSectionKind::Unstaged),
    );
    lemma_ranked(e, snap.tab.index.error is Some, TreePaneEntry::IndexError);
    assert(ranked(entries, 6));
    reveal(ranked);
}

/// The changes of the shown file can be discarded only while nothing is under way, outside of a
/// merge, in a supported state, with a diff that is not stale, and where the file was neither
/// renamed nor changed its type. The button for that is there only for an unstaged file whose diff
/// is the loaded one.
pub proof fn discarding_needs_a_current_diff(snap: DiffRenderSnapshot, latest: Option<u64>)
    ensures
        discard_button(snap, latest) == Some(false) ==> {
            &&& !snap.tab.local_action_in_flight && !snap.tab.remote_op_in_flight
            &&& snap.merge_state is None && snap.repo_state_warning is None
            &&& latest is Some ==> snap.file_generation->0 >= latest->0
            &&& snap.file_meta is Some ==> !(snap.file_meta->0.status is Renamed)
                && !(snap.file_meta->0.status is Typechange)
        },
        discard_button(snap, latest) is Some ==> {
            &&& snap.tab.selected_file is Some && snap.tab.selected_file->0.section is Unstaged
            &&& snap.file_selection is Some && snap.file_selection->0@
                == snap.tab.selected_file->0@
        },
        snap.tab.selected_file is Some && snap.tab.selected_file->0.section is Unstaged
            && snap.file_generation is Some && snap.file_selection is Some
            && snap.file_selection->0@ == snap.tab.selected_file->0@ && snap.merge_state is None
            && snap.repo_state_warning is None && !snap.tab.local_action_in_flight
            && !snap.tab.remote_op_in_flight && latest is None && snap.file_meta is None
            ==> discard_button(snap, latest) == Some(false),
{
}

/// A side of a block can be accepted exactly where a block is active and nothing is under way, the
/// base only where the block has one. An edited text can be saved, and a text that is not the loaded
/// one can be reset.
pub proof fn editor_buttons_take_clicks_where_they_apply(
    document: ConflictEditorDocument,
    in_flight: bool,
    can_mark_resolved: bool,
    index: int,
)
    requires
        0 <= index < helper_strip(document, in_flight, can_mark_resolved).len(),
    ensures
        ({
            let button = helper_strip(document, in_flight, can_mark_resolved)[index];
            let has_block = document.active_block_index is Some && document.active_block_index->0
                < document.blocks@.len();
            &&& button.action is Accept ==> button.disabled == (in_flight || !has_block)
            &&& button.action == ConflictAction::Accept(ConflictAcceptChoice::Base) ==> has_block
                && document.blocks@[document.active_block_index->0 as int].base is Some
            &&& button.action is Save ==> button.disabled == (in_flight || !document.is_dirty)
            &&& button.action is Reset ==> button.disabled == (in_flight || document.raw_text@
                == document.initial_raw_text@)
            &&& button.action is MarkResolved ==> button.disabled == !can_mark_resolved
            &&& !(button.action is Previous || button.action is Next)
        }),
        helper_strip(document, in_flight, can_mark_resolved).no_duplicates(),
        helper_strip(document, in_flight, can_mark_resolved).len() == 6 + (if (
        document.active_block_index is Some && document.active_block_index->0
            < document.blocks@.len()
            && document.blocks@[document.active_block_index->0 as int].base is Some) {
            1int
        } else {
            0int
        }),
{
}

/// The active block is told by its number from one, and by zero where none is active.
pub proof fn blocks_are_counted_from_one(document: ConflictEditorDocument)
    ensures
        document.active_block_index matches Some(index) ==> active_position(document) == index + 1,
        document.active_block_index is None ==> active_position(document) == 0,
{
}

/// The pane shows the lines of a diff only where there are changes, a file is selected and its lines
/// are there; it never shows lines for a conflicted file.
pub proof fn lines_are_shown_of_a_selected_file(
    snap: DiffRenderSnapshot,
    latest: Option<u64>,
    has_lines: bool,
    has_conflict_lines: bool,
    oversize_message: Seq<char>,
)
    ensures
        diff_pane(snap, latest, has_lines, has_conflict_lines, oversize_message) matches DiffPaneView::Lines {
            header,
            hunk_actions,
            ..
        } ==> {
            &&& snap.has_index && snap.index_file_count > 0 && has_lines && !snap.is_oversize
            &&& snap.tab.selected_file is Some && !(
            snap.tab.selected_file->0.section is Conflicted)
            &&& snap.file_meta is Some
            &&& header.path == crate::model::path_text(snap.file_meta->0.relative_path@)
            &&& hunk_actions ==> snap.tab.selected_file->0.section is Unstaged
                && snap.merge_state is None && snap.repo_state_warning is None
                && snap.tab.file.error is None
        },
        diff_pane(
            snap,
            latest,
            has_lines,
            has_conflict_lines,
            oversize_message,
        ) is ConflictEditor ==> snap.tab.selected_file is Some
            && snap.tab.selected_file->0.section is Conflicted && has_conflict_lines,
        diff_pane(snap, latest, has_lines, has_conflict_lines, oversize_message) is Stashes
            == snap.tab.view_mode is Stashes,
        tree_pane(snap) is Stashes == snap.tab.view_mode is Stashes,
{
}

} // verus!
