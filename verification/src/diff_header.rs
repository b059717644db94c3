//! The header of a diff tab and the bars of buttons below it.

use crate::diff_state;
use crate::diff_state::{DiffRenderSnapshot, DiffTabViewMode, GitSnapshotSummary, StashEntrySummary};
use crate::prompt_dialog::PromptDialogSpec;
use crate::prompts;
use crate::prompts::{PromptCommand, PublishStep};
use crate::repository_graph::Oid;
use crate::strings;
use crate::theme::{OrcaTheme, Tint};
use crate::widgets;
use crate::widgets::{ActionButtonTone, ButtonLook, ColoredText};
use vstd::prelude::*;
use vstd::string::*;

verus! {

/// What a button of a diff tab does.
#[derive(Clone, Copy, Debug, PartialEq, Eq, Structural)]
pub enum DiffAction {
    CompleteMerge,
    AbortMerge,
    ToggleDeleteBranch,
    CancelRemoveWorktree,
    ConfirmRemoveWorktree,
    BackToDiff,
    Pull,
    Push,
    Publish,
    DiscardAll,
    CreateStash,
    OpenStashes,
    MergeBack,
    RemoveWorktree,
    StageAll,
    UnstageAll,
    Commit,
    ApplyStash,
    PopStash,
    DropStash,
}

/// A button: what it does, its tone and whether it takes clicks.
#[derive(Clone, Copy, Debug, PartialEq, Eq, Structural)]
pub struct ActionButton {
    pub action: DiffAction,
    pub tone: ActionButtonTone,
    pub disabled: bool,
}

/// A button of the default tone.
pub open spec fn plain_button(action: DiffAction, disabled: bool) -> ActionButton {
    ActionButton { action, tone: ActionButtonTone::Default, disabled }
}

/// The buttons of the header. During a merge they end it; while the tab asks whether a worktree is
/// removed they answer that; and otherwise all of them are there, and those that do not apply are
/// disabled.
pub open spec fn header_actions(snap: DiffRenderSnapshot, is_live: bool) -> Seq<ActionButton> {
    let busy = snap.in_flight();
    let idle = snap.unsupported() || busy;
    if snap.merge_state is Some {
        seq![
            plain_button(DiffAction::CompleteMerge, busy || !snap.merge_state->0.can_complete),
            plain_button(DiffAction::AbortMerge, busy || !snap.merge_state->0.can_abort),
        ]
    } else if snap.tab.remove_worktree_confirm is Some {
        seq![
            plain_button(DiffAction::ToggleDeleteBranch, false),
            plain_button(DiffAction::CancelRemoveWorktree, false),
            ActionButton {
                action: DiffAction::ConfirmRemoveWorktree,
                tone: ActionButtonTone::Destructive,
                disabled: false,
            },
        ]
    } else {
        (if snap.tab.view_mode == DiffTabViewMode::Stashes {
            seq![
                ActionButton {
                    action: DiffAction::BackToDiff,
                    tone: ActionButtonTone::Primary,
                    disabled: busy,
                },
            ]
        } else {
            Seq::empty()
        }) + seq![
            plain_button(DiffAction::Pull, idle || snap.tracking_behind == 0),
            if snap.has_upstream {
                plain_button(DiffAction::Push, idle)
            } else {
                plain_button(DiffAction::Publish, idle || !is_live)
            },
            ActionButton {
                action: DiffAction::DiscardAll,
                tone: ActionButtonTone::Destructive,
                disabled: idle || snap.unstaged_file_count == 0,
            },
            plain_button(DiffAction::CreateStash, idle || snap.index_file_count == 0),
        ] + (if snap.tab.view_mode == DiffTabViewMode::WorkingTree {
            seq![plain_button(DiffAction::OpenStashes, false)]
        } else {
            Seq::empty()
        }) + seq![
            plain_button(DiffAction::MergeBack, idle || snap.tab.managed_worktree is None),
            plain_button(DiffAction::RemoveWorktree, idle || snap.tab.managed_worktree is None),
        ]
    }
}

fn default_button(action: DiffAction, disabled: bool) -> (button: ActionButton)
    ensures
        button == plain_button(action, disabled),
{
    ActionButton { action, tone: ActionButtonTone::Default, disabled }
}

/// The buttons of the header.
pub fn header_buttons(snap: &DiffRenderSnapshot, is_live: bool) -> (buttons: Vec<ActionButton>)
    ensures
        buttons@ == header_actions(*snap, is_live),
{
    let busy = snap.any_action_in_flight();
    let idle = snap.unsupported_repo_state() || busy;
    let mut buttons: Vec<ActionButton> = Vec::new();
    if let Some(merge_state) = snap.merge_state {
        buttons.push(
            default_button(DiffAction::CompleteMerge, busy || !merge_state.can_complete),
        );
        buttons.push(default_button(DiffAction::AbortMerge, busy || !merge_state.can_abort));
    } else if snap.tab.remove_worktree_confirm.is_some() {
        buttons.push(default_button(DiffAction::ToggleDeleteBranch, false));
        buttons.push(default_button(DiffAction::CancelRemoveWorktree, false));
        buttons.push(
            ActionButton {
                action: DiffAction::ConfirmRemoveWorktree,
                tone: ActionButtonTone::Destructive,
                disabled: false,
            },
        );
    } else {
        if snap.tab.view_mode == DiffTabViewMode::Stashes {
            buttons.push(
                ActionButton {
                    action: DiffAction::BackToDiff,
                    tone: ActionButtonTone::Primary,
                    disabled: busy,
                },
            );
        }
        buttons.push(default_button(DiffAction::Pull, idle || snap.tracking_behind == 0));
        if snap.has_upstream {
            buttons.push(default_button(DiffAction::Push, idle));
        } else {
            buttons.push(default_button(DiffAction::Publish, idle || !is_live));
        }
        buttons.push(
            ActionButton {
                action: DiffAction::DiscardAll,
                tone: ActionButtonTone::Destructive,
                disabled: idle || snap.unstaged_file_count == 0,
            },
        );
        buttons.push(
            default_button(DiffAction::CreateStash, idle || snap.index_file_count == 0),
        );
        if snap.tab.view_mode == DiffTabViewMode::WorkingTree {
            buttons.push(default_button(DiffAction::OpenStashes, false));
        }
        let unmanaged = snap.tab.managed_worktree.is_none();
        buttons.push(default_button(DiffAction::MergeBack, idle || unmanaged));
        buttons.push(default_button(DiffAction::RemoveWorktree, idle || unmanaged));
    }
    assert(buttons@ =~= header_actions(*snap, is_live));
    buttons
}

/// The number of stashes of a tab.
pub open spec fn stash_count(snap: DiffRenderSnapshot) -> nat {
    match snap.tab.stash.list.document {
        Some(entries) => entries@.len(),
        None => 0,
    }
}

/// What a button says.
pub open spec fn action_text(snap: DiffRenderSnapshot, action: DiffAction) -> Seq<char> {
    match action {
        DiffAction::CompleteMerge => "Complete Merge"@,
        DiffAction::AbortMerge => "Abort Merge"@,
        DiffAction::ToggleDeleteBranch => if snap.tab.remove_worktree_confirm is Some
            && snap.tab.remove_worktree_confirm->0.delete_branch {
            "\u{2611} Delete branch"@
        } else {
            "\u{2610} Delete branch"@
        },
        DiffAction::CancelRemoveWorktree => "Cancel"@,
        DiffAction::ConfirmRemoveWorktree => "Remove Worktree"@,
        DiffAction::BackToDiff => "Back to Diff"@,
        DiffAction::Pull => if snap.tracking_behind > 0 {
            "Pull"@ + " ("@ + strings::decimal(snap.tracking_behind as nat) + ")"@
        } else {
            "Pull"@
        },
        DiffAction::Push => "Push"@,
        DiffAction::Publish => "Publish"@,
        DiffAction::DiscardAll => "Discard All"@,
        DiffAction::CreateStash => "Stash\u{2026}"@,
        DiffAction::OpenStashes => "Stashes"@ + " ("@ + strings::decimal(stash_count(snap)) + ")"@,
        DiffAction::MergeBack => "Merge"@,
        DiffAction::RemoveWorktree => "Remove"@,
        DiffAction::StageAll => "Stage All"@,
        DiffAction::UnstageAll => "Unstage All"@,
        DiffAction::Commit => "Commit"@,
        DiffAction::ApplyStash => "Apply"@,
        DiffAction::PopStash => "Pop"@,
        DiffAction::DropStash => "Drop"@,
    }
}

/// What the button between the working tree and the stashes says.
pub fn stash_header_button_label(view_mode: DiffTabViewMode, stash_count: usize) -> (label: String)
    ensures
        label@ == match view_mode {
            DiffTabViewMode::WorkingTree => "Stashes"@ + " ("@ + strings::decimal(
                stash_count as nat,
            ) + ")"@,
            DiffTabViewMode::Stashes => "Back to Diff"@,
        },
{
    match view_mode {
        DiffTabViewMode::WorkingTree => widgets::section_header("Stashes", stash_count),
        DiffTabViewMode::Stashes => "Back to Diff".to_owned(),
    }
}

fn count_stashes(snap: &DiffRenderSnapshot) -> (count: usize)
    ensures
        count == stash_count(*snap),
{
    match &snap.tab.stash.list.document {
        Some(entries) => entries.len(),
        None => 0,
    }
}

/// What a button says.
pub fn action_label(snap: &DiffRenderSnapshot, action: DiffAction) -> (label: String)
    ensures
        label@ == action_text(*snap, action),
{
    let text: &str = match action {
        DiffAction::ToggleDeleteBranch => {
            let delete_branch = match snap.tab.remove_worktree_confirm {
                Some(confirm) => confirm.delete_branch,
                None => false,
            };
            if delete_branch {
                "\u{2611} Delete branch"
            } else {
                "\u{2610} Delete branch"
            }
        },
        DiffAction::Pull => {
            return widgets::label_with_count("Pull", snap.tracking_behind);
        },
        DiffAction::OpenStashes => {
            return stash_header_button_label(DiffTabViewMode::WorkingTree, count_stashes(snap));
        },
        DiffAction::CompleteMerge => "Complete Merge",
        DiffAction::AbortMerge => "Abort Merge",
        DiffAction::CancelRemoveWorktree => "Cancel",
        DiffAction::ConfirmRemoveWorktree => "Remove Worktree",
        DiffAction::BackToDiff => "Back to Diff",
        DiffAction::Push => "Push",
        DiffAction::Publish => "Publish",
        DiffAction::DiscardAll => "Discard All",
        DiffAction::CreateStash => "Stash\u{2026}",
        DiffAction::MergeBack => "Merge",
        DiffAction::RemoveWorktree => "Remove",
        DiffAction::StageAll => "Stage All",
        DiffAction::UnstageAll => "Unstage All",
        DiffAction::Commit => "Commit",
        DiffAction::ApplyStash => "Apply",
        DiffAction::PopStash => "Pop",
        DiffAction::DropStash => "Drop",
    };
    text.to_owned()
}

/// The header of a diff tab: the branch and the scope on its left, then the badges, then either the
/// question whether a worktree is removed or nothing, and the buttons.
#[derive(Debug)]
pub struct DiffHeader {
    pub branch: ColoredText,
    pub scope: ColoredText,
    pub badges: Vec<ColoredText>,
    pub question: Option<ColoredText>,
    pub buttons: Vec<ActionButton>,
}

/// The branch that the header names: that of the repository as it stands, or else that of the
/// loaded index.
pub open spec fn header_branch(
    snap: DiffRenderSnapshot,
    live: Option<&GitSnapshotSummary>,
) -> Seq<char> {
    match (live, snap.index_branch) {
        (Some(live), _) => live.branch_name@,
        (None, Some(branch)) => branch@,
        (None, None) => "detached"@,
    }
}

/// The generation of what the tab shows.
pub open spec fn displayed_generation(snap: DiffRenderSnapshot) -> Option<u64> {
    match snap.file_generation {
        Some(generation) => Some(generation),
        None => snap.index_generation,
    }
}

/// The branch of the worktree that may be removed.
pub open spec fn worktree_branch(snap: DiffRenderSnapshot) -> Seq<char> {
    match snap.tab.managed_worktree {
        Some(worktree) => worktree.branch_name@,
        None => "branch"@,
    }
}

/// What the tab shows is older than the repository.
pub open spec fn shows_stale(snap: DiffRenderSnapshot, live: Option<&GitSnapshotSummary>) -> bool {
    live is Some && displayed_generation(snap) is Some && displayed_generation(snap)->0
        < live->0.generation
}

/// The badges of the header: whether something is loading, whether what is shown is older than the
/// repository, and the generation of the repository.
pub open spec fn header_badges(
    palette: OrcaTheme,
    snap: DiffRenderSnapshot,
    live: Option<&GitSnapshotSummary>,
) -> Seq<(Seq<char>, u32)> {
    (if snap.tab.index.loading || snap.tab.file.loading {
        seq![("loading"@, palette.ORCA_BLUE)]
    } else {
        Seq::empty()
    }) + (if shows_stale(snap, live) {
        seq![("stale"@, palette.STATUS_AMBER)]
    } else {
        Seq::empty()
    }) + (match live {
        Some(live) => seq![("gen "@ + strings::decimal(live.generation as nat), palette.FOG)],
        None => Seq::empty(),
    })
}

fn push_text(texts: &mut Vec<ColoredText>, text: ColoredText)
    ensures
        widgets::text_views(final(texts)@) == widgets::text_views(old(texts)@).push((text.text@, text.color)),
{
    texts.push(text);
    assert(widgets::text_views(texts@) =~= widgets::text_views(old(texts)@).push((text.text@, text.color)));
}

/// The name of the branch in the header.
pub fn branch_in_header(snap: &DiffRenderSnapshot, live: Option<&GitSnapshotSummary>) -> (name:
    String)
    ensures
        name@ == header_branch(*snap, live),
{
    match (live, &snap.index_branch) {
        (Some(live), _) => live.branch_name.clone(),
        (None, Some(branch)) => branch.clone(),
        (None, None) => "detached".to_owned(),
    }
}

fn render_badges(
    palette: &OrcaTheme,
    snap: &DiffRenderSnapshot,
    live: Option<&GitSnapshotSummary>,
) -> (badges: Vec<ColoredText>)
    ensures
        widgets::text_views(badges@) == header_badges(*palette, *snap, live),
{
    let displayed: Option<u64> = match snap.file_generation {
        Some(generation) => Some(generation),
        None => snap.index_generation,
    };
    let latest: Option<u64> = match live {
        Some(live) => Some(live.generation),
        None => None,
    };
    let mut badges: Vec<ColoredText> = Vec::new();
    assert(widgets::text_views(badges@) =~= Seq::empty());
    if snap.tab.index.loading || snap.tab.file.loading {
        push_text(&mut badges, widgets::colored_text("loading", palette.ORCA_BLUE));
    }
    if diff_state::is_displayed_file_stale(displayed, latest) {
        push_text(&mut badges, widgets::colored_text("stale", palette.STATUS_AMBER));
    }
    if let Some(live) = live {
        let mut text = "gen ".to_owned();
        strings::push_decimal(&mut text, live.generation);
        push_text(&mut badges, ColoredText { text, color: palette.FOG });
    }
    assert(widgets::text_views(badges@) =~= header_badges(*palette, *snap, live));
    badges
}

/// The header of a diff tab shows this. It asks whether a worktree is removed where its buttons
/// answer that.
pub open spec fn shows_header(
    header: DiffHeader,
    palette: OrcaTheme,
    snap: DiffRenderSnapshot,
    live: Option<&GitSnapshotSummary>,
    scope_root: Seq<char>,
) -> bool {
    &&& widgets::says(header.branch, header_branch(snap, live), palette.PATCH)
    &&& widgets::says(header.scope, scope_root, palette.FOG)
    &&& widgets::text_views(header.badges@) == header_badges(palette, snap, live)
    &&& match header.question {
        Some(question) => snap.merge_state is None && snap.tab.remove_worktree_confirm is Some
            && widgets::says(
            question,
            "Remove worktree "@ + worktree_branch(snap) + "?"@,
            palette.BONE,
        ),
        None => snap.merge_state is Some || snap.tab.remove_worktree_confirm is None,
    }
    &&& header.buttons@ == header_actions(snap, live is Some)
}

/// The header of a diff tab.
pub fn render_header(
    palette: &OrcaTheme,
    snap: &DiffRenderSnapshot,
    live: Option<&GitSnapshotSummary>,
    scope_root: &str,
) -> (header: DiffHeader)
    ensures
        shows_header(header, *palette, *snap, live, scope_root@),
{
    let question = if snap.merge_state.is_none() && snap.tab.remove_worktree_confirm.is_some() {
        let mut text = "Remove worktree ".to_owned();
        match &snap.tab.managed_worktree {
            Some(worktree) => {
                text.append(worktree.branch_name.as_str());
            },
            None => {
                text.append("branch");
            },
        }
        text.append("?");
        Some(ColoredText { text, color: palette.BONE })
    } else {
        None
    };
    DiffHeader {
        branch: ColoredText { text: branch_in_header(snap, live), color: palette.PATCH },
        scope: ColoredText { text: scope_root.to_owned(), color: palette.FOG },
        badges: render_badges(palette, snap, live),
        question,
        buttons: header_buttons(snap, live.is_some()),
    }
}

/// How a button of a diff tab looks.
pub open spec fn button_look(palette: OrcaTheme, button: ActionButton) -> ButtonLook {
    match button.action {
        DiffAction::ToggleDeleteBranch => ButtonLook {
            clickable: true,
            fill: Tint { color: palette.SURFACE, alpha: 0 },
            border: palette.SURFACE,
            text: palette.FOG,
            hover_fill: Some(Tint { color: palette.SURFACE, alpha: 0x40 }),
            hover_text: None,
        },
        DiffAction::ConfirmRemoveWorktree => ButtonLook {
            clickable: true,
            fill: Tint { color: palette.STATUS_CORAL, alpha: 0 },
            border: palette.STATUS_CORAL,
            text: palette.STATUS_CORAL,
            hover_fill: Some(Tint { color: palette.STATUS_CORAL, alpha: 0x18 }),
            hover_text: None,
        },
        _ => if button.disabled {
            widgets::disabled_look(palette)
        } else {
            widgets::toned_look(palette, button.tone)
        },
    }
}

/// How a button of a diff tab looks. The two that are only there while the tab asks whether a
/// worktree is removed have looks of their own, without a fill.
pub fn action_button(palette: &OrcaTheme, button: ActionButton) -> (look: ButtonLook)
    ensures
        look == button_look(*palette, button),
{
    match button.action {
        DiffAction::ToggleDeleteBranch => ButtonLook {
            clickable: true,
            fill: Tint { color: palette.SURFACE, alpha: 0 },
            border: palette.SURFACE,
            text: palette.FOG,
            hover_fill: Some(Tint { color: palette.SURFACE, alpha: 0x40 }),
            hover_text: None,
        },
        DiffAction::ConfirmRemoveWorktree => ButtonLook {
            clickable: true,
            fill: Tint { color: palette.STATUS_CORAL, alpha: 0 },
            border: palette.STATUS_CORAL,
            text: palette.STATUS_CORAL,
            hover_fill: Some(Tint { color: palette.STATUS_CORAL, alpha: 0x18 }),
            hover_text: None,
        },
        _ => widgets::action_bar_button_toned(palette, button.disabled, button.tone),
    }
}

/// The text that appears over a button.
pub fn action_tooltip(action: DiffAction) -> (tooltip: Option<&'static str>)
    ensures
        match tooltip {
            Some(text) => action == DiffAction::DiscardAll && text@
                == "Discard all unstaged changes. Staged changes stay intact."@,
            None => action != DiffAction::DiscardAll,
        },
{
    match action {
        DiffAction::DiscardAll => Some("Discard all unstaged changes. Staged changes stay intact."),
        _ => None,
    }
}

/// The buttons above the changed files.
pub open spec fn tree_actions(snap: DiffRenderSnapshot) -> Seq<ActionButton> {
    let busy = snap.in_flight();
    seq![
        plain_button(DiffAction::StageAll, busy || snap.unstaged_file_count == 0),
        plain_button(DiffAction::UnstageAll, busy || snap.staged_file_count == 0),
        plain_button(
            DiffAction::Commit,
            busy || snap.staged_file_count == 0 || strings::trimmed(
                snap.tab.commit_message@,
            ).len() == 0,
        ),
    ]
}

/// The buttons above the changed files: stage all, unstage all, and commit once there is a message
/// that is more than blanks.
pub fn render_action_bar(snap: &DiffRenderSnapshot) -> (buttons: Vec<ActionButton>)
    ensures
        buttons@ == tree_actions(*snap),
{
    let busy = snap.any_action_in_flight();
    let blank = strings::trim(snap.tab.commit_message.as_str()).is_empty();
    let mut buttons: Vec<ActionButton> = Vec::new();
    buttons.push(default_button(DiffAction::StageAll, busy || snap.unstaged_file_count == 0));
    buttons.push(default_button(DiffAction::UnstageAll, busy || snap.staged_file_count == 0));
    buttons.push(
        default_button(DiffAction::Commit, busy || snap.staged_file_count == 0 || blank),
    );
    assert(buttons@ =~= tree_actions(*snap));
    buttons
}

/// The buttons above the stashes.
pub open spec fn stash_actions(snap: DiffRenderSnapshot) -> Seq<ActionButton> {
    let disabled = snap.in_flight() || snap.tab.stash.selected_stash is None;
    seq![
        plain_button(DiffAction::ApplyStash, disabled),
        plain_button(DiffAction::PopStash, disabled),
        ActionButton {
            action: DiffAction::DropStash,
            tone: ActionButtonTone::Destructive,
            disabled,
        },
    ]
}

/// The buttons above the stashes: they act on the selected one.
pub fn render_stash_action_bar(snap: &DiffRenderSnapshot) -> (buttons: Vec<ActionButton>)
    ensures
        buttons@ == stash_actions(*snap),
{
    let disabled = snap.any_action_in_flight() || snap.tab.stash.selected_stash.is_none();
    let mut buttons: Vec<ActionButton> = Vec::new();
    buttons.push(default_button(DiffAction::ApplyStash, disabled));
    buttons.push(default_button(DiffAction::PopStash, disabled));
    buttons.push(
        ActionButton {
            action: DiffAction::DropStash,
            tone: ActionButtonTone::Destructive,
            disabled,
        },
    );
    assert(buttons@ =~= stash_actions(*snap));
    buttons
}

/// The first stash with the given object name.
pub open spec fn stash_with_oid(entries: Seq<StashEntrySummary>, oid: Oid) -> Option<int>
    decreases entries.len(),
{
    if entries.len() == 0 {
        None
    } else {
        match stash_with_oid(entries.drop_last(), oid) {
            Some(index) => Some(index),
            None => if entries.last().stash_oid == oid {
                Some(entries.len() - 1)
            } else {
                None
            },
        }
    }
}

proof fn lemma_stash_prefix(entries: Seq<StashEntrySummary>, oid: Oid, count: int)
    requires
        0 <= count <= entries.len(),
        stash_with_oid(entries.take(count), oid) is Some,
    ensures
        stash_with_oid(entries, oid) == stash_with_oid(entries.take(count), oid),
    decreases entries.len(),
{
    if count < entries.len() {
        assert(entries.drop_last().take(count) =~= entries.take(count));
        lemma_stash_prefix(entries.drop_last(), oid, count);
    } else {
        assert(entries.take(count) =~= entries);
    }
}

/// Finds the first stash with the given object name.
pub fn find_stash(entries: &Vec<StashEntrySummary>, oid: Oid) -> (index: Option<usize>)
    ensures
        match index {
            Some(index) => index < entries@.len() && stash_with_oid(entries@, oid) == Some(
                index as int,
            ),
            None => stash_with_oid(entries@, oid) is None,
        },
{
    let mut i: usize = 0;
    assert(entries@.take(0) =~= Seq::<StashEntrySummary>::empty());
    while i < entries.len()
        invariant
            i <= entries@.len(),
            stash_with_oid(entries@.take(i as int), oid) is None,
        decreases entries@.len() - i,
    {
        assert(entries@.take(i + 1).drop_last() =~= entries@.take(i as int));
        if entries[i].stash_oid == oid {
            proof {
                assert(stash_with_oid(entries@.take(i + 1), oid) == Some(i as int));
                lemma_stash_prefix(entries@, oid, i + 1);
            }
            return Some(i);
        }
        i = i + 1;
    }
    assert(entries@.take(i as int) =~= entries@);
    None
}

/// The stashes of a tab. Before they are loaded there are none.
pub open spec fn stash_entries(snap: DiffRenderSnapshot) -> Seq<StashEntrySummary> {
    match snap.tab.stash.list.document {
        Some(entries) => entries@,
        None => Seq::empty(),
    }
}

/// The label of the selected stash.
pub open spec fn selected_stash_text(snap: DiffRenderSnapshot) -> Seq<char> {
    match snap.tab.stash.selected_stash {
        Some(oid) => match stash_with_oid(stash_entries(snap), oid) {
            Some(index) => stash_entries(snap)[index].label@,
            None => "stash"@,
        },
        None => "stash"@,
    }
}

/// The label of the selected stash.
pub fn selected_stash_label(snap: &DiffRenderSnapshot) -> (label: String)
    ensures
        label@ == selected_stash_text(*snap),
{
    if let (Some(oid), Some(entries)) = (
        snap.tab.stash.selected_stash,
        &snap.tab.stash.list.document,
    ) {
        if let Some(index) = find_stash(entries, oid) {
            return entries[index].label.clone();
        }
    }
    "stash".to_owned()
}

/// What a click on a button leads to.
#[derive(Debug)]
pub enum ActionEffect {
    /// The workspace does what the button says.
    Perform(DiffAction),
    /// The workspace does what the command says.
    Command(PromptCommand),
    /// A prompt asks first.
    Prompt(PromptDialogSpec),
    /// A warning is shown.
    Warn(String),
}

/// What a click on a button leads to. A publish takes the only remote, asks which of several, or
/// warns that there is none; discarding all, stashing, and popping or dropping a stash ask first;
/// all else is done at once.
pub fn click_action(
    snap: &DiffRenderSnapshot,
    live: Option<&GitSnapshotSummary>,
    action: DiffAction,
    scope_root: String,
) -> (effect: ActionEffect)
    ensures
        match action {
            DiffAction::Publish => {
                let remotes = match live {
                    Some(live) => live.remotes@,
                    None => Seq::empty(),
                };
                match effect {
                    ActionEffect::Warn(warning) => remotes.len() == 0 && warning@
                        == "No git remotes are configured for this repository."@,
                    ActionEffect::Command(PromptCommand::Publish { scope_root: scope, remote_name }) =>
                    remotes.len() == 1 && scope == scope_root && remote_name@ == remotes[0]@,
                    ActionEffect::Prompt(spec) => remotes.len() > 1 && prompts::asks_remote(
                        spec,
                        scope_root,
                        header_branch(*snap, live),
                        remotes,
                    ),
                    _ => false,
                }
            },
            DiffAction::DiscardAll => effect matches ActionEffect::Prompt(spec)
                && prompts::asks_discard_all(spec, scope_root),
            DiffAction::CreateStash => effect matches ActionEffect::Prompt(spec)
                && prompts::asks_new_stash(spec, scope_root),
            DiffAction::PopStash => effect matches ActionEffect::Prompt(spec)
                && prompts::asks_pop(spec, scope_root, selected_stash_text(*snap)),
            DiffAction::DropStash => effect matches ActionEffect::Prompt(spec)
                && prompts::asks_drop(spec, scope_root, selected_stash_text(*snap)),
            _ => effect == ActionEffect::Perform(action),
        },
{
    match action {
        DiffAction::Publish => {
            let branch_name = branch_in_header(snap, live);
            let no_remotes: Vec<String> = Vec::new();
            let remotes = match live {
                Some(live) => &live.remotes,
                None => &no_remotes,
            };
            match prompts::publish_step(scope_root, branch_name.as_str(), remotes) {
                PublishStep::WarnNoRemotes(warning) => ActionEffect::Warn(warning),
                PublishStep::Publish(command) => ActionEffect::Command(command),
                PublishStep::AskRemote(spec) => ActionEffect::Prompt(spec),
            }
        },
        DiffAction::DiscardAll => ActionEffect::Prompt(prompts::discard_all_prompt_spec(scope_root)),
        DiffAction::CreateStash => ActionEffect::Prompt(
            prompts::create_stash_prompt_spec(scope_root),
        ),
        DiffAction::PopStash => {
            let label = selected_stash_label(snap);
            ActionEffect::Prompt(prompts::pop_stash_prompt_spec(scope_root, label.as_str()))
        },
        DiffAction::DropStash => {
            let label = selected_stash_label(snap);
            ActionEffect::Prompt(prompts::drop_stash_prompt_spec(scope_root, label.as_str()))
        },
        _ => ActionEffect::Perform(action),
    }
}

/// While an action has not come back, no button of the header starts another: those that are there
/// then only go to the stashes, or answer whether a worktree is removed.
pub proof fn nothing_is_started_while_an_action_runs(
    snap: DiffRenderSnapshot,
    is_live: bool,
    index: int,
)
    requires
        snap.tab.local_action_in_flight || snap.tab.remote_op_in_flight,
        0 <= index < header_actions(snap, is_live).len(),
        !header_actions(snap, is_live)[index].disabled,
    ensures
        ({
            let action = header_actions(snap, is_live)[index].action;
            ||| action is OpenStashes
            ||| snap.tab.remove_worktree_confirm is Some && (action is ToggleDeleteBranch
                || action is CancelRemoveWorktree || action is ConfirmRemoveWorktree)
        }),
{
    lemma_header_action(snap, is_live, index);
}

/// The place of a button of the header says which one it is.
proof fn lemma_header_action(snap: DiffRenderSnapshot, is_live: bool, index: int)
    requires
        0 <= index < header_actions(snap, is_live).len(),
    ensures
        ({
            let buttons = header_actions(snap, is_live);
            let idle = snap.unsupported() || snap.in_flight();
            let shift: int = if snap.tab.view_mode == DiffTabViewMode::Stashes {
                1
            } else {
                0
            };
            snap.merge_state is None && snap.tab.remove_worktree_confirm is None ==> {
                &&& index < shift ==> buttons[index].action is BackToDiff && buttons[index].disabled
                    == snap.in_flight()
                &&& index == shift ==> buttons[index] == plain_button(
                    DiffAction::Pull,
                    idle || snap.tracking_behind == 0,
                )
                &&& index == shift + 1 ==> buttons[index] == if snap.has_upstream {
                    plain_button(DiffAction::Push, idle)
                } else {
                    plain_button(DiffAction::Publish, idle || !is_live)
                }
                &&& index == shift + 2 ==> buttons[index].action is DiscardAll
                    && buttons[index].disabled == (idle || snap.unstaged_file_count == 0)
                &&& index == shift + 3 ==> buttons[index] == plain_button(
                    DiffAction::CreateStash,
                    idle || snap.index_file_count == 0,
                )
                &&& index > shift + 3 ==> buttons[index].action is OpenStashes || ((
                buttons[index].action is MergeBack || buttons[index].action is RemoveWorktree)
                    && buttons[index].disabled == (idle || snap.tab.managed_worktree is None))
            }
        }),
        snap.merge_state is Some ==> header_actions(snap, is_live).len() == 2,
        snap.merge_state is None && snap.tab.remove_worktree_confirm is Some ==> header_actions(
            snap,
            is_live,
        ).len() == 3,
{
}

/// A button of the header takes clicks exactly where it has something to do: pulling where the
/// branch is behind, discarding where something is unstaged, stashing where something changed,
/// publishing where the repository is known, and what is about a worktree where there is one.
pub proof fn buttons_take_clicks_where_they_apply(
    snap: DiffRenderSnapshot,
    is_live: bool,
    index: int,
)
    requires
        snap.merge_state is None,
        snap.repo_state_warning is None,
        snap.tab.remove_worktree_confirm is None,
        !snap.tab.local_action_in_flight && !snap.tab.remote_op_in_flight,
        0 <= index < header_actions(snap, is_live).len(),
    ensures
        ({
            let button = header_actions(snap, is_live)[index];
            &&& button.action is Pull ==> button.disabled == (snap.tracking_behind == 0)
            &&& button.action is Push ==> !button.disabled && snap.has_upstream
            &&& button.action is Publish ==> button.disabled == !is_live && !snap.has_upstream
            &&& button.action is DiscardAll ==> button.disabled == (snap.unstaged_file_count == 0)
            &&& button.action is CreateStash ==> button.disabled == (snap.index_file_count == 0)
            &&& button.action is MergeBack || button.action is RemoveWorktree ==> button.disabled
                == (snap.tab.managed_worktree is None)
            &&& button.action is OpenStashes ==> snap.tab.view_mode is WorkingTree
            &&& button.action is BackToDiff ==> snap.tab.view_mode is Stashes
        }),
{
    lemma_header_action(snap, is_live, index);
}

/// In a state of the repository that is not supported, nothing that changes it can be clicked.
pub proof fn unsupported_states_disable_changes(
    snap: DiffRenderSnapshot,
    is_live: bool,
    index: int,
)
    requires
        snap.merge_state is None,
        snap.repo_state_warning is Some,
        snap.tab.remove_worktree_confirm is None,
        0 <= index < header_actions(snap, is_live).len(),
        !header_actions(snap, is_live)[index].disabled,
    ensures
        header_actions(snap, is_live)[index].action is OpenStashes || header_actions(
            snap,
            is_live,
        )[index].action is BackToDiff,
{
    lemma_header_action(snap, is_live, index);
}

/// During a merge the buttons complete or abort it, each where the merge allows that.
pub proof fn merge_is_completed_or_aborted(snap: DiffRenderSnapshot, is_live: bool)
    requires
        snap.merge_state is Some,
        !snap.tab.local_action_in_flight && !snap.tab.remote_op_in_flight,
    ensures
        ({
            let buttons = header_actions(snap, is_live);
            &&& buttons.len() == 2
            &&& buttons[0].action is CompleteMerge && buttons[0].disabled
                == !snap.merge_state->0.can_complete
            &&& buttons[1].action is AbortMerge && buttons[1].disabled
                == !snap.merge_state->0.can_abort
        }),
{
}

/// What is staged can be unstaged and what is not can be staged, as long as there is any, and a
/// commit needs staged files and a message that is more than white space.
pub proof fn commit_needs_files_and_a_message(snap: DiffRenderSnapshot, index: int)
    requires
        0 <= index < tree_actions(snap).len(),
        !tree_actions(snap)[index].disabled,
    ensures
        ({
            let action = tree_actions(snap)[index].action;
            &&& !snap.tab.local_action_in_flight && !snap.tab.remote_op_in_flight
            &&& action is StageAll ==> snap.unstaged_file_count > 0
            &&& action is UnstageAll ==> snap.staged_file_count > 0
            &&& action is Commit ==> snap.staged_file_count > 0 && exists|i: int|
                0 <= i < snap.tab.commit_message@.len() && !strings::is_space(
                    #[trigger] snap.tab.commit_message@[i],
                )
        }),
{
    assert(index == 0 || index == 1 || index == 2);
    if index == 2 {
        let message = snap.tab.commit_message@;
        let cut = strings::trimming_cuts_only_white_space(message);
        assert(!strings::is_space(message[cut.0]));
    }
}

/// The buttons above the stashes take clicks exactly where a stash is selected and nothing is under
/// way. The one that drops a stash is destructive.
pub proof fn stash_buttons_need_a_stash(snap: DiffRenderSnapshot, index: int)
    requires
        0 <= index < stash_actions(snap).len(),
    ensures
        ({
            let button = stash_actions(snap)[index];
            &&& button.disabled == (snap.tab.stash.selected_stash is None
                || snap.tab.local_action_in_flight || snap.tab.remote_op_in_flight)
            &&& button.tone is Destructive == button.action is DropStash
            &&& button.action is ApplyStash || button.action is PopStash || button.action is DropStash
        }),
{
    assert(index == 0 || index == 1 || index == 2);
}

/// An object name finds the first stash that has it, and none only where no stash has it. The
/// selected stash is told by its own label.
pub proof fn object_name_finds_its_stash(entries: Seq<StashEntrySummary>, oid: Oid)
    ensures
        match stash_with_oid(entries, oid) {
            Some(index) => {
                &&& 0 <= index < entries.len()
                &&& entries[index].stash_oid == oid
                &&& forall|i: int| 0 <= i < index ==> (#[trigger] entries[i]).stash_oid != oid
            },
            None => forall|i: int| 0 <= i < entries.len() ==> (#[trigger] entries[i]).stash_oid
                != oid,
        },
    decreases entries.len(),
{
    if entries.len() > 0 {
        let rest = entries.drop_last();
        object_name_finds_its_stash(rest, oid);
        assert forall|i: int| 0 <= i < rest.len() implies rest[i] == #[trigger] entries[i] by {}
    }
}

/// The label of the selected stash is that of the stash with the selected object name.
pub proof fn selected_stash_is_told_by_its_label(snap: DiffRenderSnapshot, index: int)
    requires
        snap.tab.stash.list.document is Some,
        0 <= index < snap.tab.stash.list.document->0@.len(),
        snap.tab.stash.selected_stash == Some(
            snap.tab.stash.list.document->0@[index].stash_oid,
        ),
        forall|i: int|
            0 <= i < snap.tab.stash.list.document->0@.len() && i != index ==> (
            #[trigger] snap.tab.stash.list.document->0@[i]).stash_oid
                != snap.tab.stash.list.document->0@[index].stash_oid,
    ensures
        selected_stash_text(snap) == snap.tab.stash.list.document->0@[index].label@,
        stash_count(snap) == snap.tab.stash.list.document->0@.len(),
{
    object_name_finds_its_stash(
        snap.tab.stash.list.document->0@,
        snap.tab.stash.selected_stash->0,
    );
}

/// The header says that what is shown is stale exactly where the repository has moved on since, and
/// that something is loading exactly where it is.
pub proof fn badges_tell_staleness(
    palette: OrcaTheme,
    snap: DiffRenderSnapshot,
    live: GitSnapshotSummary,
)
    requires
        snap.index_generation is Some,
        snap.file_generation is None,
    ensures
        ({
            let badges = header_badges(palette, snap, Some(&live));
            &&& badges.contains(("stale"@, palette.STATUS_AMBER)) == (snap.index_generation->0
                < live.generation)
            &&& badges.contains(("loading"@, palette.ORCA_BLUE)) == (snap.tab.index.loading
                || snap.tab.file.loading)
            &&& badges.last() == ("gen "@ + strings::decimal(live.generation as nat), palette.FOG)
        }),
{
    reveal_strlit("stale");
    reveal_strlit("loading");
    reveal_strlit("gen ");
    let badges = header_badges(palette, snap, Some(&live));
    let busy = snap.tab.index.loading || snap.tab.file.loading;
    let gen_text = "gen "@ + strings::decimal(live.generation as nat);
    assert(gen_text[0] == 'g');
    assert("stale"@[0] == 's' && "loading"@[0] == 'l');
    if busy {
        assert(badges[0] == ("loading"@, palette.ORCA_BLUE));
    }
    if shows_stale(snap, Some(&live)) {
        assert(badges[if busy { 1int } else { 0int }] == ("stale"@, palette.STATUS_AMBER));
    }
}

/// The header names the branch that the repository is on now, and the branch of what is loaded only
/// where that is not known.
pub proof fn header_names_the_current_branch(snap: DiffRenderSnapshot, live: GitSnapshotSummary)
    ensures
        header_branch(snap, Some(&live)) == live.branch_name@,
        snap.index_branch is Some ==> header_branch(snap, None) == snap.index_branch->0@,
{
}

/// What is loaded of a file counts before what is loaded of the index.
pub proof fn file_generation_comes_first(snap: DiffRenderSnapshot)
    ensures
        snap.file_generation is Some ==> displayed_generation(snap) == snap.file_generation,
        snap.file_generation is None ==> displayed_generation(snap) == snap.index_generation,
{
}

/// Nothing that can be lost goes without being asked for: discarding all changes, taking a stash and
/// dropping it never happen at once, and publishing happens at once only where there is one remote.
pub proof fn losses_are_asked_for_first(
    snap: &DiffRenderSnapshot,
    live: Option<&GitSnapshotSummary>,
    action: DiffAction,
    scope_root: String,
    effect: ActionEffect,
)
    requires
        call_ensures(click_action, (snap, live, action, scope_root), effect),
    ensures
        action is DiscardAll || action is PopStash || action is DropStash || action is CreateStash
            ==> effect is Prompt,
        effect is Perform ==> effect->Perform_0 == action,
        effect is Command ==> action is Publish && live is Some && live->0.remotes@.len() == 1,
        effect is Warn ==> action is Publish && (live is None || live->0.remotes@.len() == 0),
{
}

} // verus!
