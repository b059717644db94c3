//! The prompts of the workspace and what their answers do.

use crate::prompt_dialog;
use crate::prompt_dialog::{
    PromptDialogAction, PromptDialogConfirmTone, PromptDialogInputSpec, PromptDialogResult,
    PromptDialogSelectionOption, PromptDialogSelectionSpec, PromptDialogSpec,
    PromptDialogToggleSpec,
};
use crate::repository_graph;
use crate::repository_graph::{LocalBranchEntry, Oid, RepositoryGraphDocument};
use crate::strings;
use vstd::prelude::*;
use vstd::string::*;

verus! {

/// What a confirmed prompt asks of the workspace.
#[derive(Debug, PartialEq, Eq)]
pub enum PromptCommand {
    Publish { scope_root: String, remote_name: String },
    CreateStash {
        scope_root: String,
        message: Option<String>,
        keep_index: bool,
        include_untracked: bool,
    },
    PopSelectedStash { scope_root: String },
    DropSelectedStash { scope_root: String },
    DiscardAllUnstaged { scope_root: String },
    CreateRepositoryBranch {
        project_id: String,
        source_branch_name: String,
        new_branch_name: String,
    },
    DeleteRepositoryBranch { project_id: String, branch_name: String },
}

/// The toggle is on.
pub open spec fn is_on(result: PromptDialogResult, id: Seq<char>) -> bool {
    prompt_dialog::toggle_value(prompt_dialog::toggle_views(result.toggles@), id) == Some(true)
}

/// The command is what the answer to the prompt asks for.
pub open spec fn answers_prompt(
    action: PromptDialogAction,
    result: PromptDialogResult,
    command: Option<PromptCommand>,
) -> bool {
    match action {
        PromptDialogAction::Publish { scope_root: scope } => match result.selection {
            Some(remote) => command matches Some(PromptCommand::Publish { scope_root, remote_name })
                && scope_root@ == scope@ && remote_name@ == remote@,
            None => command is None,
        },
        PromptDialogAction::CreateStash { scope_root: scope } => {
            command matches Some(
                PromptCommand::CreateStash { scope_root, message, keep_index, include_untracked },
            ) && scope_root@ == scope@ && strings::optional_view(message) == (
            match result.input {
                Some(input) => if strings::trimmed(input@).len() > 0 {
                    Some(strings::trimmed(input@))
                } else {
                    None
                },
                None => None,
            }) && keep_index == is_on(result, "keep_index"@) && include_untracked == is_on(
                result,
                "include_untracked"@,
            )
        },
        PromptDialogAction::PopStash { scope_root: scope } => command matches Some(
            PromptCommand::PopSelectedStash { scope_root },
        ) && scope_root@ == scope@,
        PromptDialogAction::DropStash { scope_root: scope } => command matches Some(
            PromptCommand::DropSelectedStash { scope_root },
        ) && scope_root@ == scope@,
        PromptDialogAction::DiscardAll { scope_root: scope } => command matches Some(
            PromptCommand::DiscardAllUnstaged { scope_root },
        ) && scope_root@ == scope@,
        PromptDialogAction::CreateBranch { project_id: project, source_branch_name: source } => {
            match result.input {
                Some(name) => command matches Some(
                    PromptCommand::CreateRepositoryBranch {
                        project_id,
                        source_branch_name,
                        new_branch_name,
                    },
                ) && project_id@ == project@ && source_branch_name@ == source@ && new_branch_name@
                    == name@,
                None => command is None,
            }
        },
        PromptDialogAction::DeleteBranch { project_id: project, branch_name: branch } => {
            command matches Some(PromptCommand::DeleteRepositoryBranch { project_id, branch_name })
                && project_id@ == project@ && branch_name@ == branch@
        },
    }
}

fn toggle_is_on(result: &PromptDialogResult, id: &str) -> (on: bool)
    ensures
        on == is_on(*result, id@),
{
    match prompt_dialog::find_toggle(&result.toggles, id) {
        Some(value) => value,
        None => false,
    }
}

/// What the answer to a prompt asks of the workspace. A publish without a remote and a branch
/// without a name ask for nothing.
pub fn confirm_prompt(action: &PromptDialogAction, result: &PromptDialogResult) -> (command: Option<
    PromptCommand,
>)
    ensures
        answers_prompt(*action, *result, command),
{
    match action {
        PromptDialogAction::Publish { scope_root } => match &result.selection {
            Some(remote) => Some(
                PromptCommand::Publish {
                    scope_root: scope_root.clone(),
                    remote_name: remote.clone(),
                },
            ),
            None => None,
        },
        PromptDialogAction::CreateStash { scope_root } => {
            let message = match &result.input {
                Some(input) => {
                    let trimmed = strings::trim(input.as_str());
                    if trimmed.is_empty() {
                        None
                    } else {
                        Some(trimmed.to_owned())
                    }
                },
                None => None,
            };
            Some(
                PromptCommand::CreateStash {
                    scope_root: scope_root.clone(),
                    message,
                    keep_index: toggle_is_on(result, "keep_index"),
                    include_untracked: toggle_is_on(result, "include_untracked"),
                },
            )
        },
        PromptDialogAction::PopStash { scope_root } => Some(
            PromptCommand::PopSelectedStash { scope_root: scope_root.clone() },
        ),
        PromptDialogAction::DropStash { scope_root } => Some(
            PromptCommand::DropSelectedStash { scope_root: scope_root.clone() },
        ),
        PromptDialogAction::DiscardAll { scope_root } => Some(
            PromptCommand::DiscardAllUnstaged { scope_root: scope_root.clone() },
        ),
        PromptDialogAction::CreateBranch { project_id, source_branch_name } => match &result.input {
            Some(name) => Some(
                PromptCommand::CreateRepositoryBranch {
                    project_id: project_id.clone(),
                    source_branch_name: source_branch_name.clone(),
                    new_branch_name: name.clone(),
                },
            ),
            None => None,
        },
        PromptDialogAction::DeleteBranch { project_id, branch_name } => Some(
            PromptCommand::DeleteRepositoryBranch {
                project_id: project_id.clone(),
                branch_name: branch_name.clone(),
            },
        ),
    }
}

/// The texts of a prompt.
pub open spec fn prompt_says(
    spec: PromptDialogSpec,
    title: Seq<char>,
    detail: Seq<char>,
    confirm_label: Seq<char>,
    tone: PromptDialogConfirmTone,
) -> bool {
    &&& spec.title@ == title
    &&& strings::optional_view(spec.detail) == Some(detail)
    &&& spec.confirm_label@ == confirm_label
    &&& spec.confirm_tone == tone
}

/// The prompt only asks to confirm.
pub open spec fn only_confirms(spec: PromptDialogSpec) -> bool {
    spec.input is None && spec.selection is None && spec.toggles@.len() == 0
}

/// Each remote is an option, under its own name.
pub open spec fn options_are(options: Seq<PromptDialogSelectionOption>, remotes: Seq<String>) -> bool {
    &&& options.len() == remotes.len()
    &&& forall|i: int|
        #![trigger options[i]]
        0 <= i < options.len() ==> options[i].label@ == remotes[i]@ && options[i].value@
            == remotes[i]@
}

/// The prompt asks which remote a branch is first published to.
pub open spec fn asks_remote(
    spec: PromptDialogSpec,
    scope_root: String,
    branch_name: Seq<char>,
    remotes: Seq<String>,
) -> bool {
    &&& prompt_says(
        spec,
        "Publish "@ + branch_name,
        "Choose a remote for the first publish. OrcaShell will run `git push -u <remote> HEAD`."@,
        "Publish"@,
        PromptDialogConfirmTone::Primary,
    )
    &&& spec.input is None
    &&& spec.toggles@.len() == 0
    &&& spec.selection is Some
    &&& spec.selection->0.initial_selected == 0
    &&& options_are(spec.selection->0.options@, remotes)
    &&& spec.on_confirm == (PromptDialogAction::Publish { scope_root })
}

/// Asks which remote a branch is first published to.
pub fn publish_remote_prompt_spec(
    scope_root: String,
    branch_name: &str,
    remotes: &Vec<String>,
) -> (spec: PromptDialogSpec)
    ensures
        asks_remote(spec, scope_root, branch_name@, remotes@),
{
    let mut options: Vec<PromptDialogSelectionOption> = Vec::new();
    let mut i: usize = 0;
    while i < remotes.len()
        invariant
            i <= remotes@.len(),
            options@.len() == i,
            forall|k: int|
                #![trigger options@[k]]
                0 <= k < i ==> options@[k].label@ == remotes@[k]@ && options@[k].value@
                    == remotes@[k]@,
        decreases remotes@.len() - i,
    {
        options.push(
            PromptDialogSelectionOption { label: remotes[i].clone(), value: remotes[i].clone() },
        );
        i = i + 1;
    }
    PromptDialogSpec {
        title: strings::concat_text("Publish ", branch_name),
        detail: Some(
            "Choose a remote for the first publish. OrcaShell will run `git push -u <remote> HEAD`.".to_owned(),
        ),
        confirm_label: "Publish".to_owned(),
        confirm_tone: PromptDialogConfirmTone::Primary,
        input: None,
        selection: Some(PromptDialogSelectionSpec { options, initial_selected: 0 }),
        toggles: Vec::new(),
        on_confirm: PromptDialogAction::Publish { scope_root },
    }
}

/// The toggle is off and has this id and label.
pub open spec fn toggle_is(toggle: PromptDialogToggleSpec, id: Seq<char>, label: Seq<char>) -> bool {
    toggle.id@ == id && toggle.label@ == label && !toggle.initial_value
}

/// The prompt asks for a new stash: an optional message, whether to keep the index and whether to
/// take in untracked files.
pub open spec fn asks_new_stash(spec: PromptDialogSpec, scope_root: String) -> bool {
    &&& prompt_says(
        spec,
        "Create Stash"@,
        "Save the current working tree into a stash for this diff scope."@,
        "Create Stash"@,
        PromptDialogConfirmTone::Primary,
    )
    &&& spec.input is Some
    &&& spec.input->0.allow_empty
    &&& spec.input->0.initial_value@.len() == 0
    &&& spec.input->0.placeholder@ == "optional stash message"@
    &&& spec.selection is None
    &&& spec.toggles@.len() == 2
    &&& toggle_is(spec.toggles@[0], "keep_index"@, "Keep index"@)
    &&& toggle_is(spec.toggles@[1], "include_untracked"@, "Include untracked"@)
    &&& spec.on_confirm == (PromptDialogAction::CreateStash { scope_root })
}

/// Asks for a new stash.
pub fn create_stash_prompt_spec(scope_root: String) -> (spec: PromptDialogSpec)
    ensures
        asks_new_stash(spec, scope_root),
{
    let mut toggles: Vec<PromptDialogToggleSpec> = Vec::new();
    toggles.push(
        PromptDialogToggleSpec {
            id: "keep_index".to_owned(),
            label: "Keep index".to_owned(),
            initial_value: false,
        },
    );
    toggles.push(
        PromptDialogToggleSpec {
            id: "include_untracked".to_owned(),
            label: "Include untracked".to_owned(),
            initial_value: false,
        },
    );
    PromptDialogSpec {
        title: "Create Stash".to_owned(),
        detail: Some("Save the current working tree into a stash for this diff scope.".to_owned()),
        confirm_label: "Create Stash".to_owned(),
        confirm_tone: PromptDialogConfirmTone::Primary,
        input: Some(
            PromptDialogInputSpec {
                placeholder: "optional stash message".to_owned(),
                initial_value: String::new(),
                allow_empty: true,
            },
        ),
        selection: None,
        toggles,
        on_confirm: PromptDialogAction::CreateStash { scope_root },
    }
}

/// The prompt asks to confirm that a stash is applied and removed.
pub open spec fn asks_pop(spec: PromptDialogSpec, scope_root: String, label: Seq<char>) -> bool {
    &&& prompt_says(
        spec,
        "Pop "@ + label,
        "Apply this stash and remove it if the apply succeeds."@,
        "Pop"@,
        PromptDialogConfirmTone::Primary,
    )
    &&& only_confirms(spec)
    &&& spec.on_confirm == (PromptDialogAction::PopStash { scope_root })
}

/// Asks to confirm that a stash is applied and removed.
pub fn pop_stash_prompt_spec(scope_root: String, label: &str) -> (spec: PromptDialogSpec)
    ensures
        asks_pop(spec, scope_root, label@),
{
    PromptDialogSpec {
        title: strings::concat_text("Pop ", label),
        detail: Some("Apply this stash and remove it if the apply succeeds.".to_owned()),
        confirm_label: "Pop".to_owned(),
        confirm_tone: PromptDialogConfirmTone::Primary,
        input: None,
        selection: None,
        toggles: Vec::new(),
        on_confirm: PromptDialogAction::PopStash { scope_root },
    }
}

/// The prompt asks to confirm that a stash is deleted.
pub open spec fn asks_drop(spec: PromptDialogSpec, scope_root: String, label: Seq<char>) -> bool {
    &&& prompt_says(
        spec,
        "Drop "@ + label,
        "Delete this stash entry permanently."@,
        "Drop"@,
        PromptDialogConfirmTone::Destructive,
    )
    &&& only_confirms(spec)
    &&& spec.on_confirm == (PromptDialogAction::DropStash { scope_root })
}

/// Asks to confirm that a stash is deleted.
pub fn drop_stash_prompt_spec(scope_root: String, label: &str) -> (spec: PromptDialogSpec)
    ensures
        asks_drop(spec, scope_root, label@),
{
    PromptDialogSpec {
        title: strings::concat_text("Drop ", label),
        detail: Some("Delete this stash entry permanently.".to_owned()),
        confirm_label: "Drop".to_owned(),
        confirm_tone: PromptDialogConfirmTone::Destructive,
        input: None,
        selection: None,
        toggles: Vec::new(),
        on_confirm: PromptDialogAction::DropStash { scope_root },
    }
}

/// The prompt asks to confirm that all unstaged changes are discarded.
pub open spec fn asks_discard_all(spec: PromptDialogSpec, scope_root: String) -> bool {
    &&& prompt_says(
        spec,
        "Discard All"@,
        "Discard all unstaged changes in this diff scope? Staged changes will be left intact."@,
        "Discard All"@,
        PromptDialogConfirmTone::Destructive,
    )
    &&& only_confirms(spec)
    &&& spec.on_confirm == (PromptDialogAction::DiscardAll { scope_root })
}

/// Asks to confirm that all unstaged changes are discarded.
pub fn discard_all_prompt_spec(scope_root: String) -> (spec: PromptDialogSpec)
    ensures
        asks_discard_all(spec, scope_root),
{
    PromptDialogSpec {
        title: "Discard All".to_owned(),
        detail: Some(
            "Discard all unstaged changes in this diff scope? Staged changes will be left intact.".to_owned(),
        ),
        confirm_label: "Discard All".to_owned(),
        confirm_tone: PromptDialogConfirmTone::Destructive,
        input: None,
        selection: None,
        toggles: Vec::new(),
        on_confirm: PromptDialogAction::DiscardAll { scope_root },
    }
}

/// What a click on the publish button does.
#[derive(Debug)]
pub enum PublishStep {
    WarnNoRemotes(String),
    Publish(PromptCommand),
    AskRemote(PromptDialogSpec),
}

/// Publishes a branch: with no remote there is a warning, with one it is taken, and with several
/// the prompt asks for one.
pub fn publish_step(scope_root: String, branch_name: &str, remotes: &Vec<String>) -> (step:
    PublishStep)
    ensures
        match step {
            PublishStep::WarnNoRemotes(warning) => remotes@.len() == 0 && warning@
                == "No git remotes are configured for this repository."@,
            PublishStep::Publish(command) => remotes@.len() == 1 && (command matches PromptCommand::Publish {
                scope_root: scope,
                remote_name,
            } && scope == scope_root && remote_name@ == remotes@[0]@),
            PublishStep::AskRemote(spec) => remotes@.len() > 1 && asks_remote(
                spec,
                scope_root,
                branch_name@,
                remotes@,
            ),
        },
{
    if remotes.len() == 0 {
        PublishStep::WarnNoRemotes(
            "No git remotes are configured for this repository.".to_owned(),
        )
    } else if remotes.len() == 1 {
        PublishStep::Publish(
            PromptCommand::Publish { scope_root, remote_name: remotes[0].clone() },
        )
    } else {
        PublishStep::AskRemote(publish_remote_prompt_spec(scope_root, branch_name, remotes))
    }
}

/// The first local branch with the given name.
pub open spec fn branch_named(branches: Seq<LocalBranchEntry>, name: Seq<char>) -> Option<int>
    decreases branches.len(),
{
    if branches.len() == 0 {
        None
    } else {
        match branch_named(branches.drop_last(), name) {
            Some(index) => Some(index),
            None => if branches.last().name@ == name {
                Some(branches.len() - 1)
            } else {
                None
            },
        }
    }
}

/// Finds the first local branch with the given name.
pub fn find_branch(branches: &Vec<LocalBranchEntry>, name: &str) -> (index: Option<usize>)
    ensures
        match index {
            Some(index) => branch_named(branches@, name@) == Some(index as int) && index
                < branches@.len() && branches@[index as int].name@ == name@,
            None => branch_named(branches@, name@) is None,
        },
{
    let mut i: usize = 0;
    assert(branches@.take(0) =~= Seq::<LocalBranchEntry>::empty());
    while i < branches.len()
        invariant
            i <= branches@.len(),
            branch_named(branches@.take(i as int), name@) is None,
        decreases branches@.len() - i,
    {
        assert(branches@.take(i + 1).drop_last() =~= branches@.take(i as int));
        if strings::same_text(branches[i].name.as_str(), name) {
            proof {
                assert(branch_named(branches@.take(i + 1), name@) == Some(i as int));
                lemma_branch_named_prefix(branches@, name@, i + 1);
            }
            return Some(i);
        }
        i = i + 1;
    }
    assert(branches@.take(i as int) =~= branches@);
    None
}

proof fn lemma_branch_named_prefix(branches: Seq<LocalBranchEntry>, name: Seq<char>, count: int)
    requires
        0 <= count <= branches.len(),
        branch_named(branches.take(count), name) is Some,
    ensures
        branch_named(branches, name) == branch_named(branches.take(count), name),
    decreases branches.len(),
{
    if count < branches.len() {
        assert(branches.drop_last().take(count) =~= branches.take(count));
        lemma_branch_named_prefix(branches.drop_last(), name, count);
    } else {
        assert(branches.take(count) =~= branches);
    }
}

/// The commit that a local branch points to.
pub open spec fn branch_target(graph: RepositoryGraphDocument, name: Seq<char>) -> Option<Oid> {
    match branch_named(graph.local_branches@, name) {
        Some(index) => Some(graph.local_branches@[index].target),
        None => None,
    }
}

/// The commit that a local branch points to.
pub fn local_branch_target(graph: &RepositoryGraphDocument, branch_name: &str) -> (target: Option<
    Oid,
>)
    ensures
        target == branch_target(*graph, branch_name@),
{
    match find_branch(&graph.local_branches, branch_name) {
        Some(index) => Some(graph.local_branches[index].target),
        None => None,
    }
}

/// The first digits of a commit's name.
pub open spec fn short_oid(oid: Oid) -> Seq<char> {
    repository_graph::hex_digits(oid.high as nat, 8)
}

/// The prompt asks for the name of a branch that is created at a commit.
pub open spec fn asks_new_branch(
    spec: PromptDialogSpec,
    project_id: Seq<char>,
    scope_root: Seq<char>,
    target: Oid,
    source_branch_name: Seq<char>,
) -> bool {
    &&& prompt_says(
        spec,
        "Create Branch From "@ + source_branch_name,
        "Target commit "@ + short_oid(target) + ". The new branch will be checked out in "@
            + scope_root + "."@,
        "Create & Checkout"@,
        PromptDialogConfirmTone::Primary,
    )
    &&& spec.input is Some
    &&& !spec.input->0.allow_empty
    &&& spec.input->0.initial_value@.len() == 0
    &&& spec.input->0.placeholder@ == "new branch name"@
    &&& spec.selection is None
    &&& spec.toggles@.len() == 0
    &&& spec.on_confirm matches PromptDialogAction::CreateBranch {
        project_id: project,
        source_branch_name: source,
    } && project@ == project_id && source@ == source_branch_name
}

/// Asks for the name of a branch that is created from another and checked out. There is no prompt
/// where the other branch does not exist.
pub fn create_branch_prompt_spec(
    project_id: &str,
    scope_root: &str,
    graph: &RepositoryGraphDocument,
    source_branch_name: &str,
) -> (spec: Option<PromptDialogSpec>)
    ensures
        match branch_target(*graph, source_branch_name@) {
            None => spec is None,
            Some(target) => spec is Some && asks_new_branch(
                spec->0,
                project_id@,
                scope_root@,
                target,
                source_branch_name@,
            ),
        },
{
    let target = match local_branch_target(graph, source_branch_name) {
        Some(target) => target,
        None => {
            return None;
        },
    };
    let short = target.to_short_hex();
    let mut detail = strings::concat_text("Target commit ", short.as_str());
    detail.append(". The new branch will be checked out in ");
    detail.append(scope_root);
    detail.append(".");
    Some(
        PromptDialogSpec {
            title: strings::concat_text("Create Branch From ", source_branch_name),
            detail: Some(detail),
            confirm_label: "Create & Checkout".to_owned(),
            confirm_tone: PromptDialogConfirmTone::Primary,
            input: Some(
                PromptDialogInputSpec {
                    placeholder: "new branch name".to_owned(),
                    initial_value: String::new(),
                    allow_empty: false,
                },
            ),
            selection: None,
            toggles: Vec::new(),
            on_confirm: PromptDialogAction::CreateBranch {
                project_id: project_id.to_owned(),
                source_branch_name: source_branch_name.to_owned(),
            },
        },
    )
}

/// What the prompt that deletes a branch says.
pub open spec fn delete_branch_detail(
    graph: RepositoryGraphDocument,
    scope_root: Seq<char>,
    branch_name: Seq<char>,
) -> Seq<char> {
    match branch_target(graph, branch_name) {
        Some(target) => "Delete local branch "@ + branch_name + " at "@ + short_oid(target)
            + " from the repository rooted at "@ + scope_root
            + ". Git may still refuse if the branch is checked out elsewhere or not fully merged."@,
        None => "Delete local branch "@ + branch_name + " from the repository rooted at "@
            + scope_root + "."@,
    }
}

/// The prompt asks to confirm that a local branch is deleted.
pub open spec fn asks_branch_removal(
    spec: PromptDialogSpec,
    project_id: Seq<char>,
    scope_root: Seq<char>,
    graph: RepositoryGraphDocument,
    branch_name: Seq<char>,
) -> bool {
    &&& prompt_says(
        spec,
        "Delete Branch "@ + branch_name,
        delete_branch_detail(graph, scope_root, branch_name),
        "Delete Branch"@,
        PromptDialogConfirmTone::Destructive,
    )
    &&& only_confirms(spec)
    &&& spec.on_confirm matches PromptDialogAction::DeleteBranch {
        project_id: project,
        branch_name: branch,
    } && project@ == project_id && branch@ == branch_name
}

/// Asks to confirm that a local branch is deleted.
pub fn delete_branch_prompt_spec(
    project_id: &str,
    scope_root: &str,
    graph: &RepositoryGraphDocument,
    branch_name: &str,
) -> (spec: PromptDialogSpec)
    ensures
        asks_branch_removal(spec, project_id@, scope_root@, *graph, branch_name@),
{
    let mut detail = strings::concat_text("Delete local branch ", branch_name);
    match local_branch_target(graph, branch_name) {
        Some(target) => {
            let short = target.to_short_hex();
            detail.append(" at ");
            detail.append(short.as_str());
            detail.append(" from the repository rooted at ");
            detail.append(scope_root);
            detail.append(
                ". Git may still refuse if the branch is checked out elsewhere or not fully merged.",
            );
        },
        None => {
            detail.append(" from the repository rooted at ");
            detail.append(scope_root);
            detail.append(".");
        },
    }
    PromptDialogSpec {
        title: strings::concat_text("Delete Branch ", branch_name),
        detail: Some(detail),
        confirm_label: "Delete Branch".to_owned(),
        confirm_tone: PromptDialogConfirmTone::Destructive,
        input: None,
        selection: None,
        toggles: Vec::new(),
        on_confirm: PromptDialogAction::DeleteBranch {
            project_id: project_id.to_owned(),
            branch_name: branch_name.to_owned(),
        },
    }
}

/// A prompt that is confirmed does what it asks about, in the scope that it was opened for.
pub proof fn confirmed_prompt_does_what_it_asks(
    spec: PromptDialogSpec,
    scope_root: String,
    label: Seq<char>,
    result: PromptDialogResult,
    command: Option<PromptCommand>,
)
    requires
        answers_prompt(spec.on_confirm, result, command),
    ensures
        asks_pop(spec, scope_root, label) ==> (command matches Some(
            PromptCommand::PopSelectedStash { scope_root: scope },
        ) && scope@ == scope_root@),
        asks_drop(spec, scope_root, label) ==> (command matches Some(
            PromptCommand::DropSelectedStash { scope_root: scope },
        ) && scope@ == scope_root@),
        asks_discard_all(spec, scope_root) ==> (command matches Some(
            PromptCommand::DiscardAllUnstaged { scope_root: scope },
        ) && scope@ == scope_root@),
        asks_new_stash(spec, scope_root) ==> (command matches Some(
            PromptCommand::CreateStash { scope_root: scope, .. },
        ) && scope@ == scope_root@),
{
}

/// What cannot be taken back is confirmed by a button of the destructive kind: dropping a stash,
/// discarding changes and deleting a branch. Popping a stash, making one and creating a branch are
/// not of that kind.
pub proof fn lasting_losses_look_destructive(
    spec: PromptDialogSpec,
    scope_root: String,
    label: Seq<char>,
    project_id: Seq<char>,
    graph: RepositoryGraphDocument,
    target: Oid,
)
    ensures
        asks_drop(spec, scope_root, label) ==> spec.confirm_tone is Destructive,
        asks_discard_all(spec, scope_root) ==> spec.confirm_tone is Destructive,
        asks_branch_removal(spec, project_id, scope_root@, graph, label)
            ==> spec.confirm_tone is Destructive,
        asks_pop(spec, scope_root, label) ==> spec.confirm_tone is Primary,
        asks_new_stash(spec, scope_root) ==> spec.confirm_tone is Primary,
        asks_new_branch(spec, project_id, scope_root@, target, label)
            ==> spec.confirm_tone is Primary,
{
}

/// A new stash keeps the index exactly where the toggle with that label is on, and takes in
/// untracked files exactly where the other one is. Its message is what was typed, without the white
/// space around it, and it has none where nothing was typed.
pub proof fn stash_follows_the_labelled_toggles(
    spec: PromptDialogSpec,
    scope_root: String,
    result: PromptDialogResult,
    command: Option<PromptCommand>,
    index: int,
)
    requires
        asks_new_stash(spec, scope_root),
        answers_prompt(spec.on_confirm, result, command),
        0 <= index < spec.toggles@.len(),
    ensures
        command matches Some(
            PromptCommand::CreateStash { message, keep_index, include_untracked, .. },
        ) && {
            let toggle = spec.toggles@[index];
            &&& toggle.label@ == "Keep index"@ ==> keep_index == is_on(result, toggle.id@)
            &&& toggle.label@ == "Include untracked"@ ==> include_untracked == is_on(
                result,
                toggle.id@,
            )
            &&& message is Some ==> message->0@.len() > 0 && result.input is Some && message->0@
                == strings::trimmed(result.input->0@)
            &&& message is None ==> result.input is None || strings::trimmed(
                result.input->0@,
            ).len() == 0
        },
{
    reveal_strlit("Keep index");
    reveal_strlit("Include untracked");
    assert("Keep index"@.len() != "Include untracked"@.len());
}

/// The branch that a prompt was opened for is the one that its answer deletes, or that the new
/// branch begins at; the new branch gets the name that was typed.
pub proof fn branch_prompts_name_their_branch(
    spec: PromptDialogSpec,
    project_id: Seq<char>,
    scope_root: Seq<char>,
    graph: RepositoryGraphDocument,
    target: Oid,
    branch: Seq<char>,
    result: PromptDialogResult,
    command: Option<PromptCommand>,
)
    requires
        answers_prompt(spec.on_confirm, result, command),
    ensures
        asks_branch_removal(spec, project_id, scope_root, graph, branch) ==> (command matches Some(
            PromptCommand::DeleteRepositoryBranch { project_id: project, branch_name },
        ) && project@ == project_id && branch_name@ == branch),
        asks_new_branch(spec, project_id, scope_root, target, branch) && result.input is Some ==> (
        command matches Some(
            PromptCommand::CreateRepositoryBranch {
                project_id: project,
                source_branch_name,
                new_branch_name,
            },
        ) && project@ == project_id && source_branch_name@ == branch && new_branch_name@
            == result.input->0@),
        asks_new_branch(spec, project_id, scope_root, target, branch) && result.input is None
            ==> command is None,
{
}

/// A published branch goes to the remote that was selected by its name.
pub proof fn publishing_goes_to_the_selected_remote(
    spec: PromptDialogSpec,
    scope_root: String,
    branch_name: Seq<char>,
    remotes: Seq<String>,
    index: int,
    result: PromptDialogResult,
    command: Option<PromptCommand>,
)
    requires
        asks_remote(spec, scope_root, branch_name, remotes),
        answers_prompt(spec.on_confirm, result, command),
        0 <= index < remotes.len(),
        result.selection is Some,
        result.selection->0@ == spec.selection->0.options@[index].value@,
    ensures
        spec.selection->0.options@[index].label@ == remotes[index]@,
        command matches Some(PromptCommand::Publish { scope_root: scope, remote_name }) && scope@
            == scope_root@ && remote_name@ == remotes[index]@,
{
}

/// A name finds the first local branch that has it, and none only where no branch has it.
pub proof fn name_finds_its_branch(branches: Seq<LocalBranchEntry>, name: Seq<char>)
    ensures
        match branch_named(branches, name) {
            Some(index) => {
                &&& 0 <= index < branches.len()
                &&& branches[index].name@ == name
                &&& forall|i: int| 0 <= i < index ==> (#[trigger] branches[i]).name@ != name
            },
            None => forall|i: int| 0 <= i < branches.len() ==> (#[trigger] branches[i]).name@
                != name,
        },
    decreases branches.len(),
{
    if branches.len() > 0 {
        let rest = branches.drop_last();
        name_finds_its_branch(rest, name);
        assert forall|i: int| 0 <= i < rest.len() implies rest[i] == #[trigger] branches[i] by {}
    }
}

/// The prompt that deletes a branch names the commit that the branch points to, where there is such
/// a branch.
pub proof fn removal_names_the_target(
    graph: RepositoryGraphDocument,
    scope_root: Seq<char>,
    index: int,
)
    requires
        0 <= index < graph.local_branches@.len(),
        forall|i: int|
            0 <= i < graph.local_branches@.len() && i != index ==> (
            #[trigger] graph.local_branches@[i]).name@ != graph.local_branches@[index].name@,
    ensures
        ({
            let branch = graph.local_branches@[index];
            let front = "Delete local branch "@ + branch.name@ + " at "@;
            &&& branch_target(graph, branch.name@) == Some(branch.target)
            &&& delete_branch_detail(graph, scope_root, branch.name@).len() >= front.len() + 8
            &&& delete_branch_detail(graph, scope_root, branch.name@).subrange(
                front.len() as int,
                front.len() as int + 8,
            ) == branch.target.hex().take(8)
        }),
{
    let branch = graph.local_branches@[index];
    name_finds_its_branch(graph.local_branches@, branch.name@);
    repository_graph::lemma_hex_len(branch.target.high as nat, 8);
    repository_graph::lemma_hex_len(branch.target.low as nat, 32);
    let front = "Delete local branch "@ + branch.name@ + " at "@;
    assert(delete_branch_detail(graph, scope_root, branch.name@).subrange(
        front.len() as int,
        front.len() as int + 8,
    ) =~= branch.target.hex().take(8));
}

} // verus!
