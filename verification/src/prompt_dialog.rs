//! Prompt dialogs: what they ask, how they are answered and what a confirmed answer does.

use crate::strings;
use crate::theme::{OrcaTheme, Tint};
use crate::widgets;
use crate::widgets::ButtonLook;
use vstd::prelude::*;
use vstd::string::*;

verus! {

/// What a dialog reports.
#[derive(Clone, Copy, Debug, PartialEq, Eq, Structural)]
pub enum PromptDialogEvent {
    Dismiss,
}

/// How the confirm button is coloured.
#[derive(Clone, Copy, Debug, PartialEq, Eq, Structural)]
pub enum PromptDialogConfirmTone {
    Primary,
    Destructive,
}

/// A text input of a dialog.
#[derive(Debug)]
pub struct PromptDialogInputSpec {
    pub placeholder: String,
    pub initial_value: String,
    pub allow_empty: bool,
}

/// An option to select.
#[derive(Debug)]
pub struct PromptDialogSelectionOption {
    pub label: String,
    pub value: String,
}

/// The options to select from.
#[derive(Debug)]
pub struct PromptDialogSelectionSpec {
    pub options: Vec<PromptDialogSelectionOption>,
    pub initial_selected: usize,
}

/// A toggle of a dialog.
#[derive(Debug)]
pub struct PromptDialogToggleSpec {
    pub id: String,
    pub label: String,
    pub initial_value: bool,
}

/// The value of a toggle.
#[derive(Debug, PartialEq, Eq)]
pub struct ToggleValue {
    pub id: String,
    pub value: bool,
}

/// The answer to a dialog.
#[derive(Debug, PartialEq, Eq)]
pub struct PromptDialogResult {
    pub input: Option<String>,
    pub selection: Option<String>,
    pub toggles: Vec<ToggleValue>,
}

/// What a dialog is about.
#[derive(Debug)]
pub enum PromptDialogAction {
    Publish { scope_root: String },
    CreateStash { scope_root: String },
    PopStash { scope_root: String },
    DropStash { scope_root: String },
    DiscardAll { scope_root: String },
    CreateBranch { project_id: String, source_branch_name: String },
    DeleteBranch { project_id: String, branch_name: String },
}

/// A dialog to show.
#[derive(Debug)]
pub struct PromptDialogSpec {
    pub title: String,
    pub detail: Option<String>,
    pub confirm_label: String,
    pub confirm_tone: PromptDialogConfirmTone,
    pub input: Option<PromptDialogInputSpec>,
    pub selection: Option<PromptDialogSelectionSpec>,
    pub toggles: Vec<PromptDialogToggleSpec>,
    pub on_confirm: PromptDialogAction,
}

/// The ids and values of toggles.
pub open spec fn toggle_views(toggles: Seq<ToggleValue>) -> Seq<(Seq<char>, bool)> {
    toggles.map_values(|toggle: ToggleValue| (toggle.id@, toggle.value))
}

/// The value of a toggle.
pub open spec fn toggle_value(toggles: Seq<(Seq<char>, bool)>, id: Seq<char>) -> Option<bool>
    decreases toggles.len(),
{
    if toggles.len() == 0 {
        None
    } else if toggles.last().0 == id {
        Some(toggles.last().1)
    } else {
        toggle_value(toggles.drop_last(), id)
    }
}

/// The toggles with one of them set.
pub open spec fn toggle_set(toggles: Seq<(Seq<char>, bool)>, id: Seq<char>, value: bool) -> Seq<
    (Seq<char>, bool),
>
    decreases toggles.len(),
{
    if toggles.len() == 0 {
        seq![(id, value)]
    } else if toggles.last().0 == id {
        toggles.drop_last().push((id, value))
    } else {
        toggle_set(toggles.drop_last(), id, value).push(toggles.last())
    }
}

/// The toggles as a dialog opens with them. Of two with the same id the later one counts.
pub open spec fn initial_toggles(specs: Seq<PromptDialogToggleSpec>) -> Seq<(Seq<char>, bool)>
    decreases specs.len(),
{
    if specs.len() == 0 {
        Seq::empty()
    } else {
        toggle_set(
            initial_toggles(specs.drop_last()),
            specs.last().id@,
            specs.last().initial_value,
        )
    }
}

/// No toggle is listed twice.
pub open spec fn toggles_distinct(toggles: Seq<(Seq<char>, bool)>) -> bool {
    forall|i: int, j: int|
        0 <= i < j < toggles.len() ==> (#[trigger] toggles[i]).0 != (#[trigger] toggles[j]).0
}

/// Setting a toggle lists no toggle that is neither the one that is set nor was listed before.
proof fn lemma_toggle_origin(toggles: Seq<(Seq<char>, bool)>, id: Seq<char>, value: bool, i: int)
    requires
        0 <= i < toggle_set(toggles, id, value).len(),
    ensures
        toggle_set(toggles, id, value)[i].0 == id || exists|k: int|
            0 <= k < toggles.len() && (#[trigger] toggles[k]).0 == toggle_set(
                toggles,
                id,
                value,
            )[i].0,
    decreases toggles.len(),
{
    if toggles.len() > 0 {
        let rest = toggles.drop_last();
        let out = toggle_set(toggles, id, value);
        if toggles.last().0 == id {
            if i < rest.len() {
                assert(toggles[i].0 == out[i].0);
            }
        } else if i < out.len() - 1 {
            lemma_toggle_origin(rest, id, value, i);
            if out[i].0 != id {
                let k = choose|k: int| 0 <= k < rest.len() && (#[trigger] rest[k]).0 == out[i].0;
                assert(toggles[k].0 == out[i].0);
            }
        } else {
            assert(toggles[toggles.len() - 1].0 == out[i].0);
        }
    }
}

/// Setting a toggle lists none twice.
pub proof fn setting_a_toggle_lists_none_twice(
    toggles: Seq<(Seq<char>, bool)>,
    id: Seq<char>,
    value: bool,
)
    requires
        toggles_distinct(toggles),
    ensures
        toggles_distinct(toggle_set(toggles, id, value)),
    decreases toggles.len(),
{
    if toggles.len() > 0 {
        let rest = toggles.drop_last();
        let last = toggles[toggles.len() - 1];
        assert(toggles_distinct(rest)) by {
            assert forall|i: int, j: int| 0 <= i < j < rest.len() implies (#[trigger] rest[i]).0
                != (#[trigger] rest[j]).0 by {
                assert(toggles[i].0 != toggles[j].0);
            }
        }
        let out = toggle_set(toggles, id, value);
        setting_a_toggle_lists_none_twice(rest, id, value);
        let inner = if last.0 == id {
            rest
        } else {
            toggle_set(rest, id, value)
        };
        assert forall|i: int, j: int| 0 <= i < j < out.len() implies (#[trigger] out[i]).0 != (
        #[trigger] out[j]).0 by {
            if j < inner.len() {
                assert(inner[i].0 != inner[j].0);
            } else if last.0 == id {
                assert(toggles[i].0 != toggles[toggles.len() - 1].0);
            } else {
                lemma_toggle_origin(rest, id, value, i);
                if out[i].0 != id {
                    let k = choose|k: int|
                        0 <= k < rest.len() && (#[trigger] rest[k]).0 == out[i].0;
                    assert(toggles[k].0 != toggles[toggles.len() - 1].0);
                }
            }
        }
    }
}

/// Setting a toggle gives it that value and leaves every other toggle as it was.
pub proof fn toggle_reads_what_was_set(
    toggles: Seq<(Seq<char>, bool)>,
    id: Seq<char>,
    value: bool,
    other: Seq<char>,
)
    ensures
        toggle_value(toggle_set(toggles, id, value), id) == Some(value),
        other != id ==> toggle_value(toggle_set(toggles, id, value), other) == toggle_value(
            toggles,
            other,
        ),
    decreases toggles.len(),
{
    let out = toggle_set(toggles, id, value);
    if toggles.len() == 0 {
        assert(out.drop_last() =~= Seq::<(Seq<char>, bool)>::empty());
        assert(toggle_value(out.drop_last(), other) is None);
    } else if toggles.last().0 == id {
        assert(out.drop_last() =~= toggles.drop_last());
    } else {
        toggle_reads_what_was_set(toggles.drop_last(), id, value, other);
        assert(out.drop_last() =~= toggle_set(toggles.drop_last(), id, value));
    }
}

/// The value of a toggle.
pub fn find_toggle(toggles: &Vec<ToggleValue>, id: &str) -> (value: Option<bool>)
    ensures
        value == toggle_value(toggle_views(toggles@), id@),
{
    let mut left: usize = toggles.len();
    assert(toggle_views(toggles@).take(left as int) =~= toggle_views(toggles@));
    while left > 0
        invariant
            left <= toggles@.len(),
            toggle_value(toggle_views(toggles@).take(left as int), id@) == toggle_value(
                toggle_views(toggles@),
                id@,
            ),
        decreases left,
    {
        let ghost taken = toggle_views(toggles@).take(left as int);
        assert(taken.last() == (toggles@[left - 1].id@, toggles@[left - 1].value));
        if strings::same_text(toggles[left - 1].id.as_str(), id) {
            return Some(toggles[left - 1].value);
        }
        assert(taken.drop_last() =~= toggle_views(toggles@).take(left - 1));
        left = left - 1;
    }
    None
}

/// Sets a toggle.
pub fn set_toggle(toggles: &mut Vec<ToggleValue>, id: &str, value: bool)
    ensures
        toggle_views(final(toggles)@) == toggle_set(toggle_views(old(toggles)@), id@, value),
    decreases old(toggles)@.len(),
{
    let ghost before = toggle_views(toggles@);
    match toggles.pop() {
        None => {
            toggles.push(ToggleValue { id: id.to_owned(), value });
            assert(toggle_views(toggles@) =~= seq![(id@, value)]);
        },
        Some(last) => {
            let ghost rest = toggle_views(toggles@);
            assert(rest =~= before.drop_last());
            if strings::same_text(last.id.as_str(), id) {
                toggles.push(ToggleValue { id: last.id, value });
                assert(toggle_views(toggles@) =~= rest.push((id@, value)));
            } else {
                set_toggle(toggles, id, value);
                let ghost middle = toggle_views(toggles@);
                toggles.push(last);
                assert(toggle_views(toggles@) =~= middle.push(before.last()));
            }
        },
    }
}

/// A copy of toggles.
fn copy_toggles(toggles: &Vec<ToggleValue>) -> (copy: Vec<ToggleValue>)
    ensures
        toggle_views(copy@) == toggle_views(toggles@),
{
    let mut copy: Vec<ToggleValue> = Vec::new();
    let mut i: usize = 0;
    while i < toggles.len()
        invariant
            i <= toggles@.len(),
            copy@ == toggles@.take(i as int),
        decreases toggles@.len() - i,
    {
        copy.push(ToggleValue { id: toggles[i].id.clone(), value: toggles[i].value });
        i = i + 1;
        assert(copy@ =~= toggles@.take(i as int));
    }
    assert(toggles@.take(i as int) =~= toggles@);
    copy
}

/// An open dialog.
#[derive(Debug)]
pub struct PromptDialogOverlay {
    pub spec: PromptDialogSpec,
    pub input: Option<String>,
    pub selected_option: usize,
    pub toggle_values: Vec<ToggleValue>,
    pub input_focused_once: bool,
}

/// What a key press or a click does to a dialog.
#[derive(Debug)]
pub enum PromptDialogReply {
    Ignored,
    Handled,
    Dismissed,
    Submitted(PromptDialogResult),
}

/// What a text input holds, without white space around it.
pub open spec fn trimmed_input(input: Option<String>) -> Option<Seq<char>> {
    match input {
        Some(value) => Some(strings::trimmed(value@)),
        None => None,
    }
}

/// The option that is selected.
pub open spec fn selected_value(dialog: PromptDialogOverlay) -> Option<Seq<char>> {
    match dialog.spec.selection {
        Some(selection) => if dialog.selected_option < selection.options@.len() {
            Some(selection.options@[dialog.selected_option as int].value@)
        } else {
            None
        },
        None => None,
    }
}

/// The result is what the dialog holds.
pub open spec fn is_answer(dialog: PromptDialogOverlay, result: PromptDialogResult) -> bool {
    &&& strings::optional_view(result.input) == trimmed_input(dialog.input)
    &&& strings::optional_view(result.selection) == selected_value(dialog)
    &&& toggle_views(result.toggles@) == toggle_views(dialog.toggle_values@)
}

/// The validator accepts every text.
pub open spec fn validates_anything<F: Fn(&str) -> Option<String>>(validate: Option<F>) -> bool {
    validate matches Some(validate) ==> forall|value: &str| #[trigger] validate.requires((value,))
}

/// The message is what the validator says of the input. An input that may be empty and is needs
/// no validation.
pub open spec fn is_message<F: Fn(&str) -> Option<String>>(
    dialog: PromptDialogOverlay,
    validate: Option<F>,
    message: Option<String>,
) -> bool {
    match trimmed_input(dialog.input) {
        None => message is None,
        Some(value) => if value.len() == 0 && (dialog.spec.input is None
            || dialog.spec.input->0.allow_empty) {
            message is None
        } else if dialog.spec.input is Some && validate is Some {
            exists|source: &str|
                source@ == value && #[trigger] (validate->0).ensures((source,), message)
        } else {
            message is None
        },
    }
}

/// The dialog cannot be confirmed, given the validation message.
pub open spec fn is_disabled(dialog: PromptDialogOverlay, message: Option<String>) -> bool {
    match trimmed_input(dialog.input) {
        Some(value) => (value.len() == 0 && !(dialog.spec.input is Some
            && dialog.spec.input->0.allow_empty)) || message is Some,
        None => match dialog.spec.selection {
            Some(selection) => selection.options@.len() == 0,
            None => false,
        },
    }
}

/// The option that moving up or down selects.
pub open spec fn moved_selection(dialog: PromptDialogOverlay, down: bool) -> usize {
    match dialog.spec.selection {
        Some(selection) => if selection.options@.len() == 0 {
            dialog.selected_option
        } else if down {
            if dialog.selected_option + 1 < selection.options@.len() {
                (dialog.selected_option + 1) as usize
            } else {
                (selection.options@.len() - 1) as usize
            }
        } else if dialog.selected_option > 0 {
            (dialog.selected_option - 1) as usize
        } else {
            0
        },
        None => dialog.selected_option,
    }
}

impl PromptDialogOverlay {
    /// Opens a dialog with the initial input, option and toggles.
    pub fn new(spec: PromptDialogSpec) -> (dialog: Self)
        ensures
            dialog.spec == spec,
            strings::optional_view(dialog.input) == match spec.input {
                Some(input) => Some(input.initial_value@),
                None => None,
            },
            dialog.selected_option == match spec.selection {
                Some(selection) => if selection.options@.len() == 0 {
                    0
                } else if selection.initial_selected < selection.options@.len() {
                    selection.initial_selected as int
                } else {
                    selection.options@.len() - 1
                },
                None => 0,
            },
            toggle_views(dialog.toggle_values@) == initial_toggles(spec.toggles@),
            toggles_distinct(toggle_views(dialog.toggle_values@)),
            !dialog.input_focused_once,
    {
        let input = match &spec.input {
            Some(input) => Some(input.initial_value.clone()),
            None => None,
        };
        let selected_option: usize = match &spec.selection {
            Some(selection) => {
                let count = selection.options.len();
                if count == 0 {
                    0
                } else if selection.initial_selected < count {
                    selection.initial_selected
                } else {
                    count - 1
                }
            },
            None => 0,
        };
        let mut toggle_values: Vec<ToggleValue> = Vec::new();
        let mut i: usize = 0;
        assert(toggle_views(toggle_values@) =~= initial_toggles(spec.toggles@.take(0)));
        while i < spec.toggles.len()
            invariant
                i <= spec.toggles@.len(),
                toggle_views(toggle_values@) == initial_toggles(spec.toggles@.take(i as int)),
                toggles_distinct(toggle_views(toggle_values@)),
            decreases spec.toggles@.len() - i,
        {
            proof {
                assert(spec.toggles@.take(i + 1).drop_last() =~= spec.toggles@.take(i as int));
                setting_a_toggle_lists_none_twice(
                    toggle_views(toggle_values@),
                    spec.toggles@[i as int].id@,
                    spec.toggles@[i as int].initial_value,
                );
            }
            set_toggle(
                &mut toggle_values,
                spec.toggles[i].id.as_str(),
                spec.toggles[i].initial_value,
            );
            i = i + 1;
        }
        assert(spec.toggles@.take(i as int) =~= spec.toggles@);
        PromptDialogOverlay {
            spec,
            input,
            selected_option,
            toggle_values,
            input_focused_once: false,
        }
    }

    /// What the text input holds, without white space around it.
    pub fn current_input_value(&self) -> (value: Option<String>)
        ensures
            strings::optional_view(value) == trimmed_input(self.input),
    {
        match &self.input {
            Some(input) => Some(strings::trim(input.as_str()).to_owned()),
            None => None,
        }
    }

    /// The value of the selected option.
    pub fn current_selection_value(&self) -> (value: Option<String>)
        ensures
            strings::optional_view(value) == selected_value(*self),
    {
        match &self.spec.selection {
            Some(selection) => if self.selected_option < selection.options.len() {
                Some(selection.options[self.selected_option].value.clone())
            } else {
                None
            },
            None => None,
        }
    }

    /// The answer as it stands.
    pub fn current_result(&self) -> (result: PromptDialogResult)
        ensures
            is_answer(*self, result),
    {
        PromptDialogResult {
            input: self.current_input_value(),
            selection: self.current_selection_value(),
            toggles: copy_toggles(&self.toggle_values),
        }
    }

    /// What is wrong with the input.
    pub fn validation_message<F: Fn(&str) -> Option<String>>(&self, validate: &Option<F>) -> (
        message: Option<String>)
        requires
            validates_anything(*validate),
        ensures
            is_message(*self, *validate, message),
    {
        let value = match self.current_input_value() {
            Some(value) => value,
            None => {
                return None;
            },
        };
        match &self.spec.input {
            None => None,
            Some(input) => {
                if value.as_str().is_empty() && input.allow_empty {
                    return None;
                }
                match validate {
                    Some(validate) => validate(value.as_str()),
                    None => None,
                }
            },
        }
    }

    /// Whether the dialog cannot be confirmed, given the validation message.
    pub fn confirm_disabled(&self, message: &Option<String>) -> (disabled: bool)
        ensures
            disabled == is_disabled(*self, *message),
    {
        if let Some(value) = self.current_input_value() {
            let allow_empty = match &self.spec.input {
                Some(input) => input.allow_empty,
                None => false,
            };
            return (!allow_empty && value.as_str().is_empty()) || message.is_some();
        }
        match &self.spec.selection {
            Some(selection) => selection.options.len() == 0,
            None => false,
        }
    }

    /// Selects the option above or below.
    pub fn move_selection(&mut self, down: bool)
        ensures
            *final(self) == (PromptDialogOverlay {
                selected_option: moved_selection(*old(self), down),
                ..*old(self)
            }),
    {
        let count: usize = match &self.spec.selection {
            Some(selection) => selection.options.len(),
            None => 0,
        };
        if count == 0 {
            return ;
        }
        if down {
            self.selected_option = if self.selected_option < count - 1 {
                self.selected_option + 1
            } else {
                count - 1
            };
        } else if self.selected_option > 0 {
            self.selected_option = self.selected_option - 1;
        }
    }

    /// Selects an option.
    pub fn select_option(&mut self, index: usize)
        ensures
            *final(self) == (PromptDialogOverlay { selected_option: index, ..*old(self) }),
    {
        self.selected_option = index;
    }

    /// Flips a toggle. One that has no value yet counts as off.
    pub fn flip_toggle(&mut self, id: &str)
        ensures
            *final(self) == (PromptDialogOverlay {
                toggle_values: final(self).toggle_values,
                ..*old(self)
            }),
            toggle_views(final(self).toggle_values@) == toggle_set(
                toggle_views(old(self).toggle_values@),
                id@,
                toggle_value(toggle_views(old(self).toggle_values@), id@) != Some(true),
            ),
            toggles_distinct(toggle_views(old(self).toggle_values@)) ==> toggles_distinct(
                toggle_views(final(self).toggle_values@),
            ),
    {
        let current = match find_toggle(&self.toggle_values, id) {
            Some(value) => value,
            None => false,
        };
        proof {
            if toggles_distinct(toggle_views(self.toggle_values@)) {
                setting_a_toggle_lists_none_twice(
                    toggle_views(self.toggle_values@),
                    id@,
                    !current,
                );
            }
        }
        set_toggle(&mut self.toggle_values, id, !current);
    }

    /// The answer, unless the dialog cannot be confirmed.
    pub fn submit<F: Fn(&str) -> Option<String>>(&self, validate: &Option<F>) -> (result: Option<
        PromptDialogResult,
    >)
        requires
            validates_anything(*validate),
        ensures
            exists|message: Option<String>|
                #[trigger] is_message(*self, *validate, message) && (result is None) == is_disabled(
                    *self,
                    message,
                ),
            result matches Some(result) ==> is_answer(*self, result),
    {
        let message = self.validation_message(validate);
        if self.confirm_disabled(&message) {
            None
        } else {
            Some(self.current_result())
        }
    }

    /// What a key press does: escape closes the dialog, the arrows move the selection and enter
    /// confirms.
    pub fn handle_key<F: Fn(&str) -> Option<String>>(
        &mut self,
        key: &str,
        validate: &Option<F>,
    ) -> (reply: PromptDialogReply)
        requires
            validates_anything(*validate),
        ensures
            key@ == "escape"@ ==> reply is Dismissed && *final(self) == *old(self),
            key@ != "escape"@ && (key@ == "up"@ || key@ == "down"@) ==> reply is Handled
                && *final(self) == (PromptDialogOverlay {
                selected_option: moved_selection(*old(self), key@ != "up"@),
                ..*old(self)
            }),
            key@ != "escape"@ && key@ != "up"@ && key@ != "down"@ && key@ == "enter"@ ==> *final(self)
                == *old(self) && exists|message: Option<String>|
                #[trigger] is_message(*old(self), *validate, message) && match reply {
                    PromptDialogReply::Handled => is_disabled(*old(self), message),
                    PromptDialogReply::Submitted(result) => !is_disabled(*old(self), message)
                        && is_answer(*old(self), result),
                    _ => false,
                },
            key@ != "escape"@ && key@ != "up"@ && key@ != "down"@ && key@ != "enter"@ ==> reply
                is Ignored && *final(self) == *old(self),
    {
        if strings::same_text(key, "escape") {
            PromptDialogReply::Dismissed
        } else if strings::same_text(key, "up") {
            self.move_selection(false);
            PromptDialogReply::Handled
        } else if strings::same_text(key, "down") {
            self.move_selection(true);
            PromptDialogReply::Handled
        } else if strings::same_text(key, "enter") {
            match self.submit(validate) {
                Some(result) => PromptDialogReply::Submitted(result),
                None => PromptDialogReply::Handled,
            }
        } else {
            PromptDialogReply::Ignored
        }
    }
}

/// What takes the keyboard when a dialog is drawn.
#[derive(Clone, Copy, Debug, PartialEq, Eq, Structural)]
pub enum PromptFocus {
    /// The text input.
    Input,
    /// The dialog itself.
    Dialog,
    /// Whatever has it.
    Unchanged,
}

impl PromptDialogOverlay {
    /// What takes the keyboard when the dialog is drawn: the input once, or else the dialog while
    /// it does not have the keyboard.
    pub fn take_focus(&mut self, dialog_focused: bool) -> (focus: PromptFocus)
        ensures
            focus == if old(self).input is Some {
                if old(self).input_focused_once {
                    PromptFocus::Unchanged
                } else {
                    PromptFocus::Input
                }
            } else if dialog_focused {
                PromptFocus::Unchanged
            } else {
                PromptFocus::Dialog
            },
            *final(self) == (PromptDialogOverlay {
                input_focused_once: old(self).input_focused_once || old(self).input is Some,
                ..*old(self)
            }),
    {
        if self.input.is_some() {
            if self.input_focused_once {
                PromptFocus::Unchanged
            } else {
                self.input_focused_once = true;
                PromptFocus::Input
            }
        } else if dialog_focused {
            PromptFocus::Unchanged
        } else {
            PromptFocus::Dialog
        }
    }
}

/// The first line of a text, without its line ending.
pub open spec fn first_line(chars: Seq<char>) -> Seq<char> {
    let end = strings::index_of_char(chars, '\n');
    if end < chars.len() && end > 0 && chars[end - 1] == '\r' {
        chars.take(end - 1)
    } else {
        chars.take(end)
    }
}

/// What of a pasted text goes into the input: its first line, unless that is empty.
pub fn pasted_line<'a>(text: &'a str) -> (line: Option<&'a str>)
    ensures
        match line {
            Some(line) => line@ == first_line(text@) && line@.len() > 0,
            None => first_line(text@).len() == 0,
        },
{
    let len = text.unicode_len();
    let mut end: usize = 0;
    while end < len && text.get_char(end) != '\n'
        invariant
            len == text@.len(),
            end <= len,
            forall|i: int| 0 <= i < end ==> text@[i] != '\n',
        decreases len - end,
    {
        end = end + 1;
    }
    proof {
        strings::lemma_index_of_char(text@, '\n');
        assert(end == strings::index_of_char(text@, '\n'));
    }
    if end < len && end > 0 && text.get_char(end - 1) == '\r' {
        end = end - 1;
    }
    assert(text@.subrange(0, end as int) =~= first_line(text@));
    if end == 0 {
        None
    } else {
        Some(text.substring_char(0, end))
    }
}

/// A toggle as it is drawn: a mark, checked or not, and its label.
#[derive(Debug)]
pub struct ToggleRow {
    pub id: String,
    pub label: String,
    pub mark: char,
    pub mark_color: u32,
}

/// The row shows this toggle.
pub open spec fn is_toggle_row(
    row: ToggleRow,
    palette: OrcaTheme,
    toggle: PromptDialogToggleSpec,
    values: Seq<(Seq<char>, bool)>,
) -> bool {
    let on = match toggle_value(values, toggle.id@) {
        Some(value) => value,
        None => toggle.initial_value,
    };
    &&& row.id@ == "prompt-dialog-toggle-"@ + toggle.id@
    &&& row.label@ == toggle.label@
    &&& row.mark == if on {
        '\u{2611}'
    } else {
        '\u{2610}'
    }
    &&& row.mark_color == if on {
        palette.ORCA_BLUE
    } else {
        palette.FOG
    }
}

fn render_toggles(
    palette: &OrcaTheme,
    toggles: &Vec<PromptDialogToggleSpec>,
    values: &Vec<ToggleValue>,
) -> (rows: Vec<ToggleRow>)
    ensures
        rows@.len() == toggles@.len(),
        forall|i: int|
            0 <= i < rows@.len() ==> is_toggle_row(
                #[trigger] rows@[i],
                *palette,
                toggles@[i],
                toggle_views(values@),
            ),
{
    let mut rows: Vec<ToggleRow> = Vec::new();
    while rows.len() < toggles.len()
        invariant
            rows@.len() <= toggles@.len(),
            forall|i: int|
                0 <= i < rows@.len() ==> is_toggle_row(
                    #[trigger] rows@[i],
                    *palette,
                    toggles@[i],
                    toggle_views(values@),
                ),
        decreases toggles@.len() - rows@.len(),
    {
        let toggle = &toggles[rows.len()];
        let on = match find_toggle(values, toggle.id.as_str()) {
            Some(value) => value,
            None => toggle.initial_value,
        };
        rows.push(
            ToggleRow {
                id: strings::concat_text("prompt-dialog-toggle-", toggle.id.as_str()),
                label: toggle.label.clone(),
                mark: if on {
                    '\u{2611}'
                } else {
                    '\u{2610}'
                },
                mark_color: if on {
                    palette.ORCA_BLUE
                } else {
                    palette.FOG
                },
            },
        );
    }
    rows
}

/// How an option looks.
#[derive(Clone, Copy, Debug, PartialEq, Eq, Structural)]
pub struct OptionLook {
    pub fill: Tint,
    pub border: u32,
    pub text: u32,
    pub hover_fill: Option<Tint>,
    pub hover_text: Option<u32>,
}

/// An option as it is drawn.
#[derive(Debug)]
pub struct OptionRow {
    pub label: String,
    pub look: OptionLook,
}

/// How an option looks.
pub open spec fn option_look(palette: OrcaTheme, selected: bool) -> OptionLook {
    if selected {
        OptionLook {
            fill: Tint { color: palette.ORCA_BLUE, alpha: 0x18 },
            border: palette.ORCA_BLUE,
            text: palette.BONE,
            hover_fill: None,
            hover_text: None,
        }
    } else {
        OptionLook {
            fill: widgets::opaque(palette.CURRENT),
            border: palette.BORDER_EMPHASIS,
            text: palette.FOG,
            hover_fill: Some(Tint { color: palette.SURFACE, alpha: 0x60 }),
            hover_text: Some(palette.BONE),
        }
    }
}

fn render_option(palette: &OrcaTheme, selected: bool) -> (look: OptionLook)
    ensures
        look == option_look(*palette, selected),
{
    if selected {
        OptionLook {
            fill: Tint { color: palette.ORCA_BLUE, alpha: 0x18 },
            border: palette.ORCA_BLUE,
            text: palette.BONE,
            hover_fill: None,
            hover_text: None,
        }
    } else {
        OptionLook {
            fill: Tint { color: palette.CURRENT, alpha: 0xFF },
            border: palette.BORDER_EMPHASIS,
            text: palette.FOG,
            hover_fill: Some(Tint { color: palette.SURFACE, alpha: 0x60 }),
            hover_text: Some(palette.BONE),
        }
    }
}

/// The options of a dialog.
pub open spec fn options_of(dialog: PromptDialogOverlay) -> Seq<PromptDialogSelectionOption> {
    match dialog.spec.selection {
        Some(selection) => selection.options@,
        None => Seq::empty(),
    }
}

fn render_dialog_options(palette: &OrcaTheme, dialog: &PromptDialogOverlay) -> (rows: Vec<OptionRow>)
    ensures
        rows@.len() == options_of(*dialog).len(),
        forall|i: int|
            0 <= i < rows@.len() ==> (#[trigger] rows@[i]).label@ == options_of(*dialog)[i].label@
                && rows@[i].look == option_look(*palette, i == dialog.selected_option),
{
    let mut rows: Vec<OptionRow> = Vec::new();
    if let Some(selection) = &dialog.spec.selection {
        while rows.len() < selection.options.len()
            invariant
                rows@.len() <= selection.options@.len(),
                forall|i: int|
                    0 <= i < rows@.len() ==> (#[trigger] rows@[i]).label@
                        == selection.options@[i].label@ && rows@[i].look == option_look(
                        *palette,
                        i == dialog.selected_option,
                    ),
            decreases selection.options@.len() - rows@.len(),
        {
            let index: usize = rows.len();
            rows.push(
                OptionRow {
                    label: selection.options[index].label.clone(),
                    look: render_option(palette, index == dialog.selected_option),
                },
            );
        }
    }
    rows
}

/// A dialog as it is drawn.
#[derive(Debug)]
pub struct PromptPanel {
    pub title: String,
    pub detail: Option<String>,
    pub has_input: bool,
    pub toggles: Vec<ToggleRow>,
    pub options: Vec<OptionRow>,
    pub message: Option<String>,
    pub confirm_label: String,
    pub confirm: ButtonLook,
    pub cancel: ButtonLook,
}

/// The colour of the confirm button.
pub open spec fn confirm_color(palette: OrcaTheme, tone: PromptDialogConfirmTone) -> u32 {
    match tone {
        PromptDialogConfirmTone::Primary => palette.ORCA_BLUE,
        PromptDialogConfirmTone::Destructive => palette.STATUS_CORAL,
    }
}

/// How a button of a dialog looks.
pub open spec fn dialog_button(palette: OrcaTheme, border: u32, fill: Tint) -> ButtonLook {
    ButtonLook {
        clickable: true,
        fill,
        border,
        text: palette.PATCH,
        hover_fill: None,
        hover_text: Some(palette.BONE),
    }
}

/// Draws a dialog: its texts, its toggles and options, what is wrong with the input, and the two
/// buttons. The confirm button is disabled while the dialog cannot be confirmed.
pub fn render_prompt_dialog(
    palette: &OrcaTheme,
    dialog: &PromptDialogOverlay,
    message: Option<String>,
) -> (panel: PromptPanel)
    ensures
        panel.title@ == dialog.spec.title@,
        strings::optional_view(panel.detail) == strings::optional_view(dialog.spec.detail),
        panel.has_input == dialog.input is Some,
        panel.toggles@.len() == dialog.spec.toggles@.len(),
        forall|i: int|
            0 <= i < panel.toggles@.len() ==> is_toggle_row(
                #[trigger] panel.toggles@[i],
                *palette,
                dialog.spec.toggles@[i],
                toggle_views(dialog.toggle_values@),
            ),
        panel.options@.len() == options_of(*dialog).len(),
        forall|i: int|
            0 <= i < panel.options@.len() ==> (#[trigger] panel.options@[i]).label@ == options_of(
                *dialog,
            )[i].label@ && panel.options@[i].look == option_look(
                *palette,
                i == dialog.selected_option,
            ),
        panel.message == message,
        panel.confirm_label@ == dialog.spec.confirm_label@,
        panel.confirm == if is_disabled(*dialog, message) {
            widgets::disabled_look(*palette)
        } else {
            dialog_button(
                *palette,
                confirm_color(*palette, dialog.spec.confirm_tone),
                Tint { color: confirm_color(*palette, dialog.spec.confirm_tone), alpha: 0x18 },
            )
        },
        panel.cancel == dialog_button(
            *palette,
            palette.BORDER_EMPHASIS,
            Tint { color: palette.CURRENT, alpha: 0x70 },
        ),
{
    let disabled = dialog.confirm_disabled(&message);
    let color = match dialog.spec.confirm_tone {
        PromptDialogConfirmTone::Primary => palette.ORCA_BLUE,
        PromptDialogConfirmTone::Destructive => palette.STATUS_CORAL,
    };
    PromptPanel {
        title: dialog.spec.title.clone(),
        detail: match &dialog.spec.detail {
            Some(detail) => Some(detail.clone()),
            None => None,
        },
        has_input: dialog.input.is_some(),
        toggles: render_toggles(palette, &dialog.spec.toggles, &dialog.toggle_values),
        options: render_dialog_options(palette, dialog),
        message,
        confirm_label: dialog.spec.confirm_label.clone(),
        confirm: widgets::prompt_dialog_button(
            palette,
            disabled,
            color,
            Tint { color, alpha: 0x18 },
        ),
        cancel: widgets::prompt_dialog_button(
            palette,
            false,
            palette.BORDER_EMPHASIS,
            Tint { color: palette.CURRENT, alpha: 0x70 },
        ),
    }
}

/// A dialog opens with every toggle at its initial value, that of the later one where two have the
/// same id.
pub proof fn toggles_open_with_their_initial_values(
    specs: Seq<PromptDialogToggleSpec>,
    index: int,
)
    requires
        0 <= index < specs.len(),
        forall|k: int| index < k < specs.len() ==> (#[trigger] specs[k]).id@ != specs[index].id@,
    ensures
        toggle_value(initial_toggles(specs), specs[index].id@) == Some(specs[index].initial_value),
    decreases specs.len(),
{
    let rest = specs.drop_last();
    let last = specs.last();
    toggle_reads_what_was_set(
        initial_toggles(rest),
        last.id@,
        last.initial_value,
        specs[index].id@,
    );
    if index < specs.len() - 1 {
        assert(specs[specs.len() - 1].id@ != specs[index].id@);
        assert forall|k: int| index < k < rest.len() implies (#[trigger] rest[k]).id@
            != rest[index].id@ by {
            assert(rest[k] == specs[k]);
        }
        toggles_open_with_their_initial_values(rest, index);
    }
}

/// The options move one at a time: down to the next one and up to the previous one, and they stop at
/// the ends of the list. Up takes back down.
pub proof fn options_move_one_at_a_time(dialog: PromptDialogOverlay)
    requires
        dialog.spec.selection is Some,
        dialog.selected_option < dialog.spec.selection->0.options@.len() <= usize::MAX,
    ensures
        ({
            let count = dialog.spec.selection->0.options@.len();
            let at = dialog.selected_option;
            let below = moved_selection(dialog, true);
            &&& at + 1 < count ==> below == at + 1
            &&& at + 1 == count ==> below == at
            &&& at > 0 ==> moved_selection(dialog, false) == at - 1
            &&& at == 0 ==> moved_selection(dialog, false) == 0
            &&& at + 1 < count ==> moved_selection(
                PromptDialogOverlay { selected_option: below, ..dialog },
                false,
            ) == at
        }),
{
}

/// A dialog with a text input can be confirmed exactly where nothing is wrong with the input and
/// there is more to it than white space, or it may be empty. One without can be confirmed unless it
/// has a list of options and the list is empty.
pub proof fn confirmed_input_says_something(dialog: PromptDialogOverlay, message: Option<String>)
    ensures
        dialog.input is Some ==> is_disabled(dialog, message) == (message is Some || (
        strings::trimmed(dialog.input->0@).len() == 0 && !(dialog.spec.input is Some
            && dialog.spec.input->0.allow_empty))),
        dialog.input is None && dialog.spec.selection is None ==> !is_disabled(dialog, message),
        dialog.input is None && dialog.spec.selection is Some ==> is_disabled(dialog, message) == (
        dialog.spec.selection->0.options@.len() == 0),
{
}

/// The answer to a dialog holds the input without the white space around it, the value of the
/// selected option, and every toggle as it stands.
pub proof fn answer_holds_what_was_chosen(
    dialog: PromptDialogOverlay,
    result: PromptDialogResult,
    id: Seq<char>,
)
    requires
        is_answer(dialog, result),
    ensures
        result.input is Some == dialog.input is Some,
        result.input is Some && result.input->0@.len() > 0 ==> !strings::is_space(
            result.input->0@[0],
        ) && !strings::is_space(result.input->0@.last()),
        dialog.spec.selection matches Some(selection) ==> dialog.selected_option
            < selection.options@.len() ==> result.selection is Some && result.selection->0@
            == selection.options@[dialog.selected_option as int].value@,
        dialog.spec.selection is None ==> result.selection is None,
        toggle_value(toggle_views(result.toggles@), id) == toggle_value(
            toggle_views(dialog.toggle_values@),
            id,
        ),
{
    if dialog.input is Some {
        let cut = strings::trimming_cuts_only_white_space(dialog.input->0@);
    }
}

/// The first line of a text is its front up to the first line feed, without a carriage return right
/// before that.
pub proof fn first_line_ends_at_the_line_feed(chars: Seq<char>)
    ensures
        ({
            let line = first_line(chars);
            &&& line.len() <= chars.len()
            &&& line == chars.take(line.len() as int)
            &&& forall|i: int| 0 <= i < line.len() ==> #[trigger] line[i] != '\n'
            &&& line.len() == chars.len() || chars[line.len() as int] == '\n' || (chars[line.len() as int]
                == '\r' && line.len() + 1 < chars.len() && chars[line.len() as int + 1] == '\n')
        }),
{
    strings::lemma_index_of_char(chars, '\n');
}

/// A toggle is drawn with a checked mark exactly where it is on.
pub proof fn checked_mark_means_on(
    row: ToggleRow,
    palette: OrcaTheme,
    toggle: PromptDialogToggleSpec,
    values: Seq<(Seq<char>, bool)>,
)
    requires
        is_toggle_row(row, palette, toggle, values),
    ensures
        toggle_value(values, toggle.id@) == Some(true) ==> row.mark == '\u{2611}' && row.mark_color
            == palette.ORCA_BLUE,
        toggle_value(values, toggle.id@) == Some(false) ==> row.mark == '\u{2610}'
            && row.mark_color == palette.FOG,
        row.label@ == toggle.label@,
{
}

/// The down key moves the choice one option down where there is one below, and the up key takes that
/// back.
pub proof fn arrow_keys_take_each_other_back<F: Fn(&str) -> Option<String>>(
    first: &mut PromptDialogOverlay,
    second: &mut PromptDialogOverlay,
    down: &str,
    up: &str,
    validate: &Option<F>,
    first_reply: PromptDialogReply,
    second_reply: PromptDialogReply,
)
    requires
        down@ == "down"@,
        up@ == "up"@,
        old(first).spec.selection is Some,
        old(first).selected_option + 1 < old(first).spec.selection->0.options@.len() <= usize::MAX,
        call_ensures(PromptDialogOverlay::handle_key::<F>, (first, down, validate), first_reply),
        call_ensures(PromptDialogOverlay::handle_key::<F>, (second, up, validate), second_reply),
    ensures
        final(first).selected_option == old(first).selected_option + 1,
        *old(second) == *final(first) ==> *final(second) == *old(first),
{
    reveal_strlit("down");
    reveal_strlit("up");
    reveal_strlit("escape");
    assert("down"@.len() == 4 && "up"@.len() == 2 && "escape"@.len() == 6);
    assert(down@ != "escape"@);
    assert(down@ != "up"@);
    assert(up@ != "escape"@);
}

/// Flipping a toggle turns it over and leaves the other toggles as they are; flipping it again brings
/// its value back.
pub proof fn flipping_turns_one_toggle_over(
    first: &mut PromptDialogOverlay,
    second: &mut PromptDialogOverlay,
    id: &str,
    other: Seq<char>,
)
    requires
        call_ensures(PromptDialogOverlay::flip_toggle, (first, id), ()),
        call_ensures(PromptDialogOverlay::flip_toggle, (second, id), ()),
    ensures
        ({
            let before = toggle_views(old(first).toggle_values@);
            let after = toggle_views(final(first).toggle_values@);
            &&& (toggle_value(after, id@) == Some(true)) != (toggle_value(before, id@) == Some(true))
            &&& other != id@ ==> toggle_value(after, other) == toggle_value(before, other)
            &&& *old(second) == *final(first) ==> (toggle_value(
                toggle_views(final(second).toggle_values@),
                id@,
            ) == Some(true)) == (toggle_value(before, id@) == Some(true))
        }),
{
    let before = toggle_views(old(first).toggle_values@);
    let after = toggle_views(old(second).toggle_values@);
    toggle_reads_what_was_set(before, id@, toggle_value(before, id@) != Some(true), id@);
    toggle_reads_what_was_set(before, id@, toggle_value(before, id@) != Some(true), other);
    toggle_reads_what_was_set(after, id@, toggle_value(after, id@) != Some(true), id@);
}

} // verus!
