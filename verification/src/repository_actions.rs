//! What can be done to the branches of a repository.

use crate::context_menu::ContextMenuItem;
use crate::diff_state::GitSnapshotSummary;
use crate::prompt_dialog::PromptDialogSpec;
use crate::prompts;
use crate::repository_graph::{HeadState, RepositoryGraphDocument};
use crate::repository_state::{
    RepositoryBranchAction, RepositoryBranchSelection, RepositoryGraphTabState,
};
use crate::strings;
use crate::theme::OrcaTheme;
use crate::widgets;
use crate::widgets::{BannerLook, ButtonLook, ColoredText};
use vstd::prelude::*;
use vstd::string::*;

verus! {

/// Whether an action on a branch takes no clicks.
#[derive(Clone, Copy, Debug, PartialEq, Eq, Structural)]
pub struct BranchDetailActionState {
    pub disabled: bool,
}

/// Which actions on the selected branch take no clicks.
#[derive(Clone, Copy, Debug, PartialEq, Eq, Structural)]
pub struct RepositoryBranchToolbarState {
    pub checkout_disabled: bool,
    pub create_disabled: bool,
    pub delete_disabled: bool,
}

/// The button that pulls.
#[derive(Debug, PartialEq, Eq)]
pub struct RepositoryPullActionState {
    pub disabled: bool,
    pub label: String,
}

/// The local branch is checked out.
pub open spec fn is_current_branch(graph: RepositoryGraphDocument, name: Seq<char>) -> bool {
    graph.head matches HeadState::Branch { name: head_name, oid } && head_name@ == name
}

/// Whether the local branch is checked out.
pub fn local_branch_is_current(graph: &RepositoryGraphDocument, branch_name: &str) -> (current:
    bool)
    ensures
        current == is_current_branch(*graph, branch_name@),
{
    match &graph.head {
        HeadState::Branch { name, oid: _ } => strings::same_text(name.as_str(), branch_name),
        _ => false,
    }
}

/// The full reference of what the checked-out branch tracks.
pub open spec fn current_upstream(graph: RepositoryGraphDocument) -> Option<Seq<char>> {
    match graph.head {
        HeadState::Branch { name, oid } => match prompts::branch_named(
            graph.local_branches@,
            name@,
        ) {
            Some(index) => match graph.local_branches@[index].upstream {
                Some(upstream) => Some(
                    "refs/remotes/"@ + upstream.remote_name@ + "/"@ + upstream.remote_ref@,
                ),
                None => None,
            },
            None => None,
        },
        _ => None,
    }
}

/// Whether the checked-out branch tracks the branch of a remote.
pub fn remote_branch_is_current_tracking_target(
    graph: &RepositoryGraphDocument,
    remote_full_ref: &str,
) -> (current: bool)
    ensures
        current == (current_upstream(*graph) == Some(remote_full_ref@)),
{
    if let HeadState::Branch { name, oid: _ } = &graph.head {
        if let Some(index) = prompts::find_branch(&graph.local_branches, name.as_str()) {
            if let Some(upstream) = &graph.local_branches[index].upstream {
                let mut full_ref = strings::concat_text(
                    "refs/remotes/",
                    upstream.remote_name.as_str(),
                );
                full_ref.append("/");
                full_ref.append(upstream.remote_ref.as_str());
                return strings::same_text(full_ref.as_str(), remote_full_ref);
            }
        }
    }
    false
}

/// A checkout of the branch would change nothing: it is checked out, or it is what the
/// checked-out branch tracks.
pub open spec fn is_checked_out(
    graph: RepositoryGraphDocument,
    selection: RepositoryBranchSelection,
) -> bool {
    match selection {
        RepositoryBranchSelection::Local { name } => is_current_branch(graph, name@),
        RepositoryBranchSelection::Remote { full_ref } => current_upstream(graph) == Some(
            full_ref@,
        ),
    }
}

/// Whether a branch can be checked out.
pub fn repository_checkout_action_state(
    graph: &RepositoryGraphDocument,
    selection: &RepositoryBranchSelection,
    scope_busy: bool,
) -> (state: BranchDetailActionState)
    ensures
        state.disabled == (scope_busy || is_checked_out(*graph, *selection)),
{
    BranchDetailActionState {
        disabled: scope_busy || match selection {
            RepositoryBranchSelection::Local { name } => local_branch_is_current(
                graph,
                name.as_str(),
            ),
            RepositoryBranchSelection::Remote { full_ref } => {
                remote_branch_is_current_tracking_target(graph, full_ref.as_str())
            },
        },
    }
}

/// Which actions on the selected branch take no clicks.
pub open spec fn toolbar_state(
    graph: RepositoryGraphDocument,
    selected: Option<RepositoryBranchSelection>,
    scope_busy: bool,
) -> RepositoryBranchToolbarState {
    RepositoryBranchToolbarState {
        checkout_disabled: match selected {
            Some(selection) => scope_busy || is_checked_out(graph, selection),
            None => true,
        },
        create_disabled: scope_busy || !(selected is Some && selected->0 is Local),
        delete_disabled: scope_busy || match selected {
            Some(RepositoryBranchSelection::Local { name }) => is_current_branch(graph, name@),
            _ => true,
        },
    }
}

/// Which actions on the selected branch take no clicks: only local branches can be branched from
/// and deleted, and the checked-out one cannot be deleted.
pub fn repository_branch_toolbar_state(
    graph: &RepositoryGraphDocument,
    state: &RepositoryGraphTabState,
    scope_busy: bool,
) -> (toolbar: RepositoryBranchToolbarState)
    ensures
        toolbar == toolbar_state(*graph, state.selected_branch, scope_busy),
{
    match &state.selected_branch {
        Some(selection) => {
            let checkout = repository_checkout_action_state(graph, selection, scope_busy);
            match selection {
                RepositoryBranchSelection::Local { name } => RepositoryBranchToolbarState {
                    checkout_disabled: checkout.disabled,
                    create_disabled: scope_busy,
                    delete_disabled: scope_busy || local_branch_is_current(graph, name.as_str()),
                },
                RepositoryBranchSelection::Remote { full_ref: _ } => RepositoryBranchToolbarState {
                    checkout_disabled: checkout.disabled,
                    create_disabled: true,
                    delete_disabled: true,
                },
            }
        },
        None => RepositoryBranchToolbarState {
            checkout_disabled: true,
            create_disabled: true,
            delete_disabled: true,
        },
    }
}

/// The checked-out local branch.
pub open spec fn current_branch(graph: Option<&RepositoryGraphDocument>) -> Option<int> {
    match graph {
        Some(graph) => match graph.head {
            HeadState::Branch { name, oid } => prompts::branch_named(
                graph.local_branches@,
                name@,
            ),
            _ => None,
        },
        None => None,
    }
}

/// How many commits the checked-out branch is behind what it tracks.
pub open spec fn commits_behind(graph: Option<&RepositoryGraphDocument>) -> nat {
    match current_branch(graph) {
        Some(index) => match graph->0.local_branches@[index].upstream {
            Some(upstream) => upstream.behind as nat,
            None => 0,
        },
        None => 0,
    }
}

/// The button that pulls is disabled while a pull runs, where there is nothing to pull, while
/// something else runs, and where files are changed.
pub open spec fn pull_disabled(
    graph: Option<&RepositoryGraphDocument>,
    snapshot: Option<&GitSnapshotSummary>,
    scope_busy: bool,
    pull_in_flight: bool,
) -> bool {
    ||| pull_in_flight
    ||| commits_behind(graph) == 0
    ||| scope_busy
    ||| snapshot is Some && snapshot->0.changed_files > 0
}

/// What the button that pulls says: how many commits the current branch is behind.
pub open spec fn pull_label(
    graph: Option<&RepositoryGraphDocument>,
    pull_in_flight: bool,
) -> Seq<char> {
    if pull_in_flight {
        "Pulling\u{2026}"@
    } else if commits_behind(graph) > 0 {
        "Pull"@ + " ("@ + strings::decimal(commits_behind(graph)) + ")"@
    } else {
        "Pull"@
    }
}

/// The button that pulls: it counts what there is to pull, and takes clicks where there is
/// something to pull into a clean working tree.
pub fn repository_pull_action_state(
    graph: Option<&RepositoryGraphDocument>,
    snapshot: Option<&GitSnapshotSummary>,
    scope_busy: bool,
    pull_in_flight: bool,
) -> (state: RepositoryPullActionState)
    ensures
        state.disabled == pull_disabled(graph, snapshot, scope_busy, pull_in_flight),
        state.label@ == pull_label(graph, pull_in_flight),
{
    if pull_in_flight {
        return RepositoryPullActionState {
            disabled: true,
            label: "Pulling\u{2026}".to_owned(),
        };
    }
    let mut behind: usize = 0;
    if let Some(graph) = graph {
        if let HeadState::Branch { name, oid: _ } = &graph.head {
            if let Some(index) = prompts::find_branch(&graph.local_branches, name.as_str()) {
                if let Some(upstream) = &graph.local_branches[index].upstream {
                    behind = upstream.behind;
                }
            }
        }
    }
    let dirty = match snapshot {
        Some(snapshot) => snapshot.changed_files > 0,
        None => false,
    };
    RepositoryPullActionState {
        disabled: behind == 0 || scope_busy || dirty,
        label: widgets::label_with_count("Pull", behind),
    }
}

/// The name of the selected branch, where it is local.
pub fn selected_local_branch_name(state: &RepositoryGraphTabState) -> (name: Option<String>)
    ensures
        name == match state.selected_branch {
            Some(RepositoryBranchSelection::Local { name }) => Some(name),
            _ => None,
        },
{
    match &state.selected_branch {
        Some(RepositoryBranchSelection::Local { name }) => Some(name.clone()),
        _ => None,
    }
}

/// How many commits a graph shows, and whether there are more.
pub fn repository_graph_meta_lines(graph: Option<&RepositoryGraphDocument>) -> (lines: (
    String,
    Option<String>,
))
    ensures
        lines.0@ == match graph {
            Some(graph) => strings::decimal(graph.commits@.len()) + " commits"@,
            None => "No graph"@,
        },
        strings::optional_view(lines.1) == if graph is Some && graph->0.truncated {
            Some("bounded view"@)
        } else {
            None
        },
{
    match graph {
        Some(graph) => {
            let mut count = strings::format_decimal(graph.commits.len() as u64);
            count.append(" commits");
            let detail = if graph.truncated {
                Some("bounded view".to_owned())
            } else {
                None
            };
            (count, detail)
        },
        None => ("No graph".to_owned(), None),
    }
}

/// What a button of the repository browser does.
#[derive(Clone, Copy, Debug, PartialEq, Eq, Structural)]
pub enum RepositoryAction {
    Fetch,
    Pull,
    Checkout,
    CreateBranch,
    DeleteBranch,
}

/// A button of the repository browser.
#[derive(Debug)]
pub struct RepositoryButton {
    pub action: RepositoryAction,
    pub label: String,
    pub look: ButtonLook,
}

/// The button does, says and allows this.
pub open spec fn button_is(
    button: RepositoryButton,
    palette: OrcaTheme,
    action: RepositoryAction,
    label: Seq<char>,
    disabled: bool,
) -> bool {
    &&& button.action == action
    &&& button.label@ == label
    &&& button.look == widgets::repository_button_look(
        palette,
        disabled,
        action == RepositoryAction::DeleteBranch,
    )
}

/// The header of a repository browser.
#[derive(Debug)]
pub struct RepositoryHeader {
    pub project_name: ColoredText,
    pub scope: ColoredText,
    pub buttons: Vec<RepositoryButton>,
    pub meta: ColoredText,
    pub meta_detail: Option<ColoredText>,
    pub banner: Option<RepositoryBanner>,
}

/// The banner of a repository browser. It can be dismissed.
#[derive(Debug)]
pub struct RepositoryBanner {
    pub message: String,
    pub look: BannerLook,
}

fn make_button(
    palette: &OrcaTheme,
    action: RepositoryAction,
    label: &str,
    disabled: bool,
) -> (button: RepositoryButton)
    ensures
        button_is(button, *palette, action, label@, disabled),
{
    RepositoryButton {
        action,
        label: label.to_owned(),
        look: widgets::repository_action_button(
            palette,
            disabled,
            action == RepositoryAction::DeleteBranch,
        ),
    }
}

/// The buttons on the selected branch, where the graph is loaded.
pub open spec fn header_toolbar(
    state: RepositoryGraphTabState,
    toolbar_busy: bool,
) -> RepositoryBranchToolbarState {
    match state.graph.document {
        Some(graph) => toolbar_state(graph, state.selected_branch, toolbar_busy),
        None => RepositoryBranchToolbarState {
            checkout_disabled: true,
            create_disabled: true,
            delete_disabled: true,
        },
    }
}

/// The header of a repository browser shows this.
pub open spec fn shows_header(
    header: RepositoryHeader,
    palette: OrcaTheme,
    project_name: Seq<char>,
    state: RepositoryGraphTabState,
    fetch_disabled: bool,
    toolbar_busy: bool,
    pull_label: Seq<char>,
    pull_disabled: bool,
) -> bool {
    &&& widgets::says(header.project_name, project_name, palette.BONE)
    &&& widgets::says(header.scope, state.scope_root@, palette.FOG)
    &&& header.buttons@.len() == 5
    &&& button_is(
        header.buttons@[0],
        palette,
        RepositoryAction::Fetch,
        if state.fetch_in_flight {
            "Fetching\u{2026}"@
        } else {
            "Fetch"@
        },
        fetch_disabled,
    )
    &&& button_is(
        header.buttons@[1],
        palette,
        RepositoryAction::Pull,
        pull_label,
        pull_disabled,
    )
    &&& button_is(
        header.buttons@[2],
        palette,
        RepositoryAction::Checkout,
        if state.active_branch_action == Some(RepositoryBranchAction::Checkout) {
            "Checking Out\u{2026}"@
        } else {
            "Checkout"@
        },
        header_toolbar(state, toolbar_busy).checkout_disabled,
    )
    &&& button_is(
        header.buttons@[3],
        palette,
        RepositoryAction::CreateBranch,
        if state.active_branch_action == Some(RepositoryBranchAction::Create) {
            "Creating\u{2026}"@
        } else {
            "Create Branch"@
        },
        header_toolbar(state, toolbar_busy).create_disabled,
    )
    &&& button_is(
        header.buttons@[4],
        palette,
        RepositoryAction::DeleteBranch,
        if state.active_branch_action == Some(RepositoryBranchAction::Delete) {
            "Deleting\u{2026}"@
        } else {
            "Delete Branch"@
        },
        header_toolbar(state, toolbar_busy).delete_disabled,
    )
    &&& widgets::says(
        header.meta,
        match state.graph.document {
            Some(graph) => strings::decimal(graph.commits@.len()) + " commits"@,
            None => "No graph"@,
        },
        palette.SLATE,
    )
    &&& match header.meta_detail {
        Some(detail) => state.graph.document is Some && state.graph.document->0.truncated
            && widgets::says(detail, "bounded view"@, palette.STATUS_AMBER),
        None => state.graph.document is None || !state.graph.document->0.truncated,
    }
    &&& match (header.banner, state.action_banner) {
        (Some(shown), Some(banner)) => shown.message@ == banner.message@ && shown.look
            == widgets::repository_banner_look(palette, banner.kind),
        (None, None) => true,
        _ => false,
    }
}

/// The header of a repository browser: the buttons to fetch, to pull, and to check out, branch from
/// and delete the selected branch, each saying when it is at work, how many commits are shown, and
/// what came of the last action.
pub fn render_header(
    palette: &OrcaTheme,
    project_name: &str,
    state: &RepositoryGraphTabState,
    fetch_disabled: bool,
    toolbar_busy: bool,
    pull_state: &RepositoryPullActionState,
) -> (header: RepositoryHeader)
    ensures
        shows_header(
            header,
            *palette,
            project_name@,
            *state,
            fetch_disabled,
            toolbar_busy,
            pull_state.label@,
            pull_state.disabled,
        ),
{
    let toolbar = match &state.graph.document {
        Some(graph) => repository_branch_toolbar_state(graph, state, toolbar_busy),
        None => RepositoryBranchToolbarState {
            checkout_disabled: true,
            create_disabled: true,
            delete_disabled: true,
        },
    };
    let (checkout, create, delete): (&str, &str, &str) = match state.active_branch_action {
        Some(RepositoryBranchAction::Checkout) => (
            "Checking Out\u{2026}",
            "Create Branch",
            "Delete Branch",
        ),
        Some(RepositoryBranchAction::Create) => ("Checkout", "Creating\u{2026}", "Delete Branch"),
        Some(RepositoryBranchAction::Delete) => ("Checkout", "Create Branch", "Deleting\u{2026}"),
        None => ("Checkout", "Create Branch", "Delete Branch"),
    };
    let (meta, meta_detail) = match &state.graph.document {
        Some(graph) => repository_graph_meta_lines(Some(graph)),
        None => repository_graph_meta_lines(None),
    };
    let mut buttons: Vec<RepositoryButton> = Vec::new();
    buttons.push(
        make_button(
            palette,
            RepositoryAction::Fetch,
            if state.fetch_in_flight {
                "Fetching\u{2026}"
            } else {
                "Fetch"
            },
            fetch_disabled,
        ),
    );
    buttons.push(
        make_button(palette, RepositoryAction::Pull, pull_state.label.as_str(), pull_state.disabled),
    );
    buttons.push(make_button(palette, RepositoryAction::Checkout, checkout, toolbar.checkout_disabled));
    buttons.push(make_button(palette, RepositoryAction::CreateBranch, create, toolbar.create_disabled));
    buttons.push(make_button(palette, RepositoryAction::DeleteBranch, delete, toolbar.delete_disabled));
    RepositoryHeader {
        project_name: widgets::colored_text(project_name, palette.BONE),
        scope: widgets::colored_text(state.scope_root.as_str(), palette.FOG),
        buttons,
        meta: ColoredText { text: meta, color: palette.SLATE },
        meta_detail: match meta_detail {
            Some(text) => Some(ColoredText { text, color: palette.STATUS_AMBER }),
            None => None,
        },
        banner: match &state.action_banner {
            Some(banner) => Some(
                RepositoryBanner {
                    message: banner.message.clone(),
                    look: widgets::render_action_banner(palette, banner.kind),
                },
            ),
            None => None,
        },
    }
}

/// What a click on a button of the repository browser leads to.
#[derive(Debug)]
pub enum RepositoryEffect {
    /// The workspace does what the button says.
    Perform(RepositoryAction),
    /// A prompt asks first.
    Prompt(PromptDialogSpec),
    /// Nothing happens.
    Nothing,
}

/// The branch that a prompt about the selected branch is for.
pub open spec fn prompted_branch(state: RepositoryGraphTabState) -> Option<Seq<char>> {
    match (state.graph.document, state.selected_branch) {
        (Some(graph), Some(RepositoryBranchSelection::Local { name })) => Some(name@),
        _ => None,
    }
}

/// What a click on a button of the repository browser leads to: creating and deleting a branch ask
/// first, and do nothing without a selected local branch.
pub fn click_action(state: &RepositoryGraphTabState, action: RepositoryAction) -> (effect:
    RepositoryEffect)
    ensures
        match action {
            RepositoryAction::CreateBranch => match prompted_branch(*state) {
                Some(name) => match prompts::branch_target(state.graph.document->0, name) {
                    Some(target) => effect matches RepositoryEffect::Prompt(spec)
                        && prompts::asks_new_branch(
                        spec,
                        state.project_id@,
                        state.scope_root@,
                        target,
                        name,
                    ),
                    None => effect is Nothing,
                },
                None => effect is Nothing,
            },
            RepositoryAction::DeleteBranch => match prompted_branch(*state) {
                Some(name) => effect matches RepositoryEffect::Prompt(spec)
                    && prompts::asks_branch_removal(
                    spec,
                    state.project_id@,
                    state.scope_root@,
                    state.graph.document->0,
                    name,
                ),
                None => effect is Nothing,
            },
            _ => effect == RepositoryEffect::Perform(action),
        },
{
    match action {
        RepositoryAction::CreateBranch => {
            if let (Some(graph), Some(RepositoryBranchSelection::Local { name })) = (
                &state.graph.document,
                &state.selected_branch,
            ) {
                return match prompts::create_branch_prompt_spec(
                    state.project_id.as_str(),
                    state.scope_root.as_str(),
                    graph,
                    name.as_str(),
                ) {
                    Some(spec) => RepositoryEffect::Prompt(spec),
                    None => RepositoryEffect::Nothing,
                };
            }
            RepositoryEffect::Nothing
        },
        RepositoryAction::DeleteBranch => {
            if let (Some(graph), Some(RepositoryBranchSelection::Local { name })) = (
                &state.graph.document,
                &state.selected_branch,
            ) {
                return RepositoryEffect::Prompt(
                    prompts::delete_branch_prompt_spec(
                        state.project_id.as_str(),
                        state.scope_root.as_str(),
                        graph,
                        name.as_str(),
                    ),
                );
            }
            RepositoryEffect::Nothing
        },
        _ => RepositoryEffect::Perform(action),
    }
}

/// The item of a branch's menu does, says and allows this.
pub open spec fn item_is(
    item: ContextMenuItem<RepositoryAction>,
    action: RepositoryAction,
    label: Seq<char>,
    enabled: bool,
) -> bool {
    &&& item.action == action
    &&& item.label@ == label
    &&& item.shortcut is None
    &&& item.enabled == enabled
}

fn make_item(action: RepositoryAction, label: &str, enabled: bool) -> (item: ContextMenuItem<
    RepositoryAction,
>)
    ensures
        item_is(item, action, label@, enabled),
{
    ContextMenuItem { label: label.to_owned(), shortcut: None, enabled, action }
}

/// The items are the menu of a branch: it can be checked out, and a local one can be branched from,
/// where it still exists, and deleted.
pub open spec fn is_branch_menu(
    items: Seq<ContextMenuItem<RepositoryAction>>,
    graph: RepositoryGraphDocument,
    selection: RepositoryBranchSelection,
    scope_busy: bool,
) -> bool {
    &&& items.len() > 0
    &&& item_is(
        items[0],
        RepositoryAction::Checkout,
        "Checkout"@,
        !(scope_busy || is_checked_out(graph, selection)),
    )
    &&& match selection {
        RepositoryBranchSelection::Remote { full_ref } => items.len() == 1,
        RepositoryBranchSelection::Local { name } => {
            &&& items.len() == if prompts::branch_target(graph, name@) is Some {
                3int
            } else {
                2
            }
            &&& items.len() == 3 ==> item_is(
                items[1],
                RepositoryAction::CreateBranch,
                "Create Branch From Here\u{2026}"@,
                !scope_busy,
            )
            &&& item_is(
                items.last(),
                RepositoryAction::DeleteBranch,
                "Delete Branch\u{2026}"@,
                !(scope_busy || is_current_branch(graph, name@)),
            )
        },
    }
}

/// The menu of a branch.
pub fn repository_branch_context_menu_items(
    graph: &RepositoryGraphDocument,
    selection: &RepositoryBranchSelection,
    scope_busy: bool,
) -> (items: Vec<ContextMenuItem<RepositoryAction>>)
    ensures
        is_branch_menu(items@, *graph, *selection, scope_busy),
{
    let checkout = repository_checkout_action_state(graph, selection, scope_busy);
    let mut items: Vec<ContextMenuItem<RepositoryAction>> = Vec::new();
    items.push(make_item(RepositoryAction::Checkout, "Checkout", !checkout.disabled));
    if let RepositoryBranchSelection::Local { name } = selection {
        if prompts::local_branch_target(graph, name.as_str()).is_some() {
            items.push(
                make_item(
                    RepositoryAction::CreateBranch,
                    "Create Branch From Here\u{2026}",
                    !scope_busy,
                ),
            );
        }
        items.push(
            make_item(
                RepositoryAction::DeleteBranch,
                "Delete Branch\u{2026}",
                !(scope_busy || local_branch_is_current(graph, name.as_str())),
            ),
        );
    }
    items
}

/// The checked-out branch can neither be checked out nor deleted, a branch of a remote can neither be
/// deleted nor branched from, and while something is under way or nothing is selected nothing can be
/// done. Any other local branch can be checked out, branched from and deleted.
pub proof fn toolbar_allows_what_makes_sense(
    graph: RepositoryGraphDocument,
    name: String,
    full_ref: String,
    head_name: String,
    oid: crate::repository_graph::Oid,
)
    requires
        graph.head == (HeadState::Branch { name: head_name, oid }),
    ensures
        ({
            let local = Some(RepositoryBranchSelection::Local { name });
            let free = toolbar_state(graph, local, false);
            let remote = toolbar_state(
                graph,
                Some(RepositoryBranchSelection::Remote { full_ref }),
                false,
            );
            let busy = toolbar_state(graph, local, true);
            let none = toolbar_state(graph, None, false);
            &&& free.checkout_disabled == (name@ == head_name@)
            &&& free.delete_disabled == (name@ == head_name@)
            &&& !free.create_disabled
            &&& remote.delete_disabled && remote.create_disabled
            &&& busy.checkout_disabled && busy.delete_disabled && busy.create_disabled
            &&& none.checkout_disabled && none.delete_disabled && none.create_disabled
        }),
{
}

/// The menu of a branch allows what the buttons allow where the branch is selected.
pub proof fn menu_agrees_with_the_toolbar(
    items: Seq<ContextMenuItem<RepositoryAction>>,
    graph: RepositoryGraphDocument,
    selection: RepositoryBranchSelection,
    scope_busy: bool,
    index: int,
)
    requires
        is_branch_menu(items, graph, selection, scope_busy),
        0 <= index < items.len(),
    ensures
        ({
            let toolbar = toolbar_state(graph, Some(selection), scope_busy);
            let item = items[index];
            &&& item.action is Checkout ==> item.enabled == !toolbar.checkout_disabled
            &&& item.action is CreateBranch ==> item.enabled == !toolbar.create_disabled
            &&& item.action is DeleteBranch ==> item.enabled == !toolbar.delete_disabled
            &&& item.action is Checkout || item.action is CreateBranch || item.action is DeleteBranch
        }),
        selection is Remote ==> items.len() == 1,
        items[0].action is Checkout,
{
    assert(index == 0 || index == 1 || index == 2);
}

/// What the checked-out branch tracks is found by its name, and told with the remote before the
/// branch there. A checkout of that branch of the remote would change nothing.
pub proof fn tracked_branch_counts_as_checked_out(
    graph: RepositoryGraphDocument,
    index: int,
    name: String,
    oid: crate::repository_graph::Oid,
    selection: RepositoryBranchSelection,
)
    requires
        graph.head == (HeadState::Branch { name, oid }),
        0 <= index < graph.local_branches@.len(),
        graph.local_branches@[index].name@ == name@,
        forall|i: int|
            0 <= i < graph.local_branches@.len() && i != index ==> (
            #[trigger] graph.local_branches@[i]).name@ != name@,
    ensures
        graph.local_branches@[index].upstream is None ==> current_upstream(graph) is None,
        graph.local_branches@[index].upstream matches Some(upstream) ==> current_upstream(graph)
            == Some("refs/remotes/"@ + upstream.remote_name@ + "/"@ + upstream.remote_ref@),
        selection matches RepositoryBranchSelection::Remote { full_ref } ==> is_checked_out(
            graph,
            selection,
        ) == (current_upstream(graph) == Some(full_ref@)),
        current_branch(Some(&graph)) == Some(index),
        graph.local_branches@[index].upstream matches Some(upstream) ==> commits_behind(
            Some(&graph),
        ) == upstream.behind,
        graph.local_branches@[index].upstream is None ==> commits_behind(Some(&graph)) == 0,
{
    prompts::name_finds_its_branch(graph.local_branches@, name@);
}

/// A pull can be started exactly where the checked-out branch is behind, no file is changed, and
/// nothing is under way. Its button counts the commits that it would bring.
pub proof fn pull_needs_something_to_pull(
    graph: Option<&RepositoryGraphDocument>,
    snapshot: Option<&GitSnapshotSummary>,
    scope_busy: bool,
    pull_in_flight: bool,
)
    ensures
        !pull_disabled(graph, snapshot, scope_busy, pull_in_flight) == (commits_behind(graph) > 0
            && !scope_busy && !pull_in_flight && (snapshot is Some ==> snapshot->0.changed_files
            == 0)),
        !pull_in_flight && commits_behind(graph) > 0 ==> ({
            let label = pull_label(graph, pull_in_flight);
            strings::number_of(label.subrange(6, label.len() - 1)) == commits_behind(graph)
        }),
        !pull_in_flight && commits_behind(graph) == 0 ==> pull_label(graph, pull_in_flight)
            == "Pull"@,
{
    reveal_strlit("Pull");
    reveal_strlit(" (");
    reveal_strlit(")");
    let label = pull_label(graph, pull_in_flight);
    if !pull_in_flight && commits_behind(graph) > 0 {
        strings::decimal_notation_reads_back(commits_behind(graph));
        assert(label.subrange(6, label.len() - 1) =~= strings::decimal(commits_behind(graph)));
    }
}

/// The buttons of the header do what they say: the one that deletes a branch is the only one that
/// looks destructive, and a button takes clicks only where what it does is allowed.
pub proof fn header_buttons_follow_the_toolbar(
    header: RepositoryHeader,
    palette: OrcaTheme,
    project_name: Seq<char>,
    state: RepositoryGraphTabState,
    fetch_disabled: bool,
    toolbar_busy: bool,
    label: Seq<char>,
    disabled: bool,
    index: int,
)
    requires
        shows_header(
            header,
            palette,
            project_name,
            state,
            fetch_disabled,
            toolbar_busy,
            label,
            disabled,
        ),
        0 <= index < header.buttons@.len(),
    ensures
        ({
            let button = header.buttons@[index];
            let toolbar = header_toolbar(state, toolbar_busy);
            &&& button.action is Fetch ==> button.look.clickable == !fetch_disabled
            &&& button.action is Pull ==> button.look.clickable == !disabled && button.label@
                == label
            &&& button.action is Checkout ==> button.look.clickable == !toolbar.checkout_disabled
            &&& button.action is CreateBranch ==> button.look.clickable == !toolbar.create_disabled
            &&& button.action is DeleteBranch ==> button.look.clickable == !toolbar.delete_disabled
            &&& button.action is DeleteBranch && button.look.clickable ==> button.look.border
                == palette.STATUS_CORAL
            &&& state.graph.document is None ==> toolbar.checkout_disabled
                && toolbar.create_disabled && toolbar.delete_disabled
        }),
        header.project_name.text@ == project_name,
        header.scope.text@ == state.scope_root@,
{
    assert(index == 0 || index == 1 || index == 2 || index == 3 || index == 4);
}

/// Only a local branch of a loaded graph is asked about.
pub proof fn prompts_are_about_local_branches(state: RepositoryGraphTabState)
    ensures
        match prompted_branch(state) {
            Some(name) => state.graph.document is Some && (state.selected_branch matches Some(
                RepositoryBranchSelection::Local { name: own },
            ) && own@ == name),
            None => state.graph.document is None || state.selected_branch is None
                || state.selected_branch->0 is Remote,
        },
{
}

/// A branch is never made or deleted without being asked for, and every other action is carried out
/// as it is.
pub proof fn branches_are_asked_for_first(
    state: &RepositoryGraphTabState,
    action: RepositoryAction,
    effect: RepositoryEffect,
)
    requires
        call_ensures(click_action, (state, action), effect),
    ensures
        action is CreateBranch || action is DeleteBranch ==> !(effect is Perform),
        action is DeleteBranch ==> (effect is Prompt) == prompted_branch(*state) is Some,
        !(action is CreateBranch) && !(action is DeleteBranch) ==> effect
            == RepositoryEffect::Perform(action),
{
}

} // verus!
