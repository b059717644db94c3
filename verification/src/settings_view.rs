//! The settings tab: its rows, and the editing of its text fields.

use crate::keys::Modifiers;
use crate::settings;
use crate::settings::{AppSettings, CursorStyle, SettingsChange, ThemeMode};
use crate::strings;
use crate::text;
use crate::theme::{OrcaTheme, ThemeId};
use crate::widgets;
use crate::widgets::{ColoredText, RadioLook};
use vstd::prelude::*;
use vstd::string::*;

verus! {

/// A text field of the settings.
#[derive(Clone, Copy, Debug, PartialEq, Eq, Structural)]
pub enum EditingField {
    FontFamily,
    DefaultShell,
    NotificationUrgentPatterns,
}

/// The settings tab. The buffer holds what has been typed into the field that is being edited.
#[derive(Debug)]
pub struct SettingsView {
    pub editing: Option<EditingField>,
    pub edit_buffer: String,
}

/// What a key did in the settings tab.
#[derive(Clone, Copy, Debug, PartialEq, Eq, Structural)]
pub enum SettingsKeyOutcome {
    /// Nothing.
    Ignored,
    /// The buffer may have changed.
    Edited,
    /// The buffer went into the settings.
    Committed,
    /// The edit was given up.
    Cancelled,
    /// The tab is to be closed.
    Close,
}

/// The parts of a list that are separated by commas, without blanks around them and without the
/// empty ones.
pub open spec fn listed_patterns(value: Seq<char>) -> Seq<Seq<char>> {
    strings::split(value, ',').map_values(|part: Seq<char>| strings::trimmed(part)).filter(
        |part: Seq<char>| part.len() > 0,
    )
}

/// Reads a list of patterns that are separated by commas.
pub fn parse_patterns(value: &str) -> (patterns: Vec<String>)
    ensures
        strings::views(patterns@) == listed_patterns(value@),
{
    let parts = strings::split_on(value, ',');
    let ghost all = strings::views(parts@);
    let ghost trims = |part: Seq<char>| strings::trimmed(part);
    let ghost keeps = |part: Seq<char>| part.len() > 0;
    let mut patterns: Vec<String> = Vec::new();
    let mut i: usize = 0;
    proof {
        reveal(Seq::filter);
        assert(all.take(0).map_values(trims) =~= Seq::<Seq<char>>::empty());
        assert(strings::views(patterns@) =~= Seq::<Seq<char>>::empty());
    }
    while i < parts.len()
        invariant
            i <= parts@.len(),
            all == strings::views(parts@),
            trims == (|part: Seq<char>| strings::trimmed(part)),
            keeps == (|part: Seq<char>| part.len() > 0),
            strings::views(patterns@) == all.take(i as int).map_values(trims).filter(keeps),
        decreases parts@.len() - i,
    {
        let ghost before = strings::views(patterns@);
        let trimmed = strings::trim(parts[i].as_str());
        proof {
            let shorter = all.take(i as int).map_values(trims);
            assert(all.take(i + 1).map_values(trims) =~= shorter.push(trimmed@));
            shorter.lemma_filter_push(trimmed@, keeps);
        }
        if !trimmed.is_empty() {
            let pattern = trimmed.to_owned();
            patterns.push(pattern);
            assert(strings::views(patterns@) =~= before.push(trimmed@));
        }
        i = i + 1;
    }
    assert(all.take(i as int) =~= all);
    patterns
}

/// The settings after a text field was filled in.
pub open spec fn filled_in(
    before: AppSettings,
    after: AppSettings,
    field: EditingField,
    value: Seq<char>,
) -> bool {
    &&& after.0.scrollback_lines == before.0.scrollback_lines
    &&& after.0.cursor_style == before.0.cursor_style
    &&& after.0.cursor_blink == before.0.cursor_blink
    &&& after.0.activity_pulse == before.0.activity_pulse
    &&& after.0.agent_notifications == before.0.agent_notifications
    &&& after.0.resume_agent_sessions == before.0.resume_agent_sessions
    &&& after.0.theme_mode == before.0.theme_mode
    &&& after.0.manual_theme == before.0.manual_theme
    &&& after.0.system_light_theme == before.0.system_light_theme
    &&& after.0.system_dark_theme == before.0.system_dark_theme
    &&& if field == EditingField::FontFamily {
        after.0.font_family@ == value
    } else {
        after.0.font_family == before.0.font_family
    }
    &&& if field == EditingField::DefaultShell {
        strings::optional_view(after.0.default_shell) == if value.len() > 0 {
            Some(value)
        } else {
            None
        }
    } else {
        after.0.default_shell == before.0.default_shell
    }
    &&& if field == EditingField::NotificationUrgentPatterns {
        strings::views(after.0.notification_urgent_patterns@) == listed_patterns(value)
    } else {
        after.0.notification_urgent_patterns == before.0.notification_urgent_patterns
    }
}

/// What a key types into a field.
pub open spec fn typed_text(
    key: Seq<char>,
    modifiers: Modifiers,
    key_char: Option<String>,
) -> Seq<char> {
    match key_char {
        Some(typed) => if !modifiers.platform && !modifiers.control {
            typed@
        } else {
            Seq::empty()
        },
        None => if text::bytes_of(key).len() == 1 && !modifiers.control && !modifiers.alt
            && !modifiers.platform {
            key
        } else {
            Seq::empty()
        },
    }
}

impl SettingsView {
    /// A tab in which nothing is being edited.
    pub fn new() -> (view: Self)
        ensures
            view.editing is None,
            view.edit_buffer@.len() == 0,
    {
        SettingsView { editing: None, edit_buffer: String::new() }
    }

    /// Gives up an edit when the tab is closed.
    pub fn reset_edit_state(&mut self)
        ensures
            final(self).editing is None,
            final(self).edit_buffer@.len() == 0,
    {
        self.editing = None;
        self.edit_buffer = String::new();
    }

    /// Begins to edit a field that holds the given text.
    pub fn start_edit(&mut self, field: EditingField, current_value: &str)
        ensures
            final(self).editing == Some(field),
            final(self).edit_buffer@ == current_value@,
    {
        self.editing = Some(field);
        self.edit_buffer = current_value.to_owned();
    }

    /// Puts what was typed into the settings, and says whether a field was being edited.
    pub fn commit_edit(&mut self, settings: &mut AppSettings) -> (committed: bool)
        ensures
            committed == old(self).editing is Some,
            final(self).editing is None,
            final(self).edit_buffer == old(self).edit_buffer,
            match old(self).editing {
                Some(field) => filled_in(
                    *old(settings),
                    *final(settings),
                    field,
                    old(self).edit_buffer@,
                ),
                None => *final(settings) == *old(settings),
            },
    {
        let field = match self.editing {
            Some(field) => field,
            None => {
                return false;
            },
        };
        self.editing = None;
        match field {
            EditingField::FontFamily => {
                settings.0.font_family = self.edit_buffer.clone();
            },
            EditingField::DefaultShell => {
                settings.0.default_shell =
                if self.edit_buffer.as_str().is_empty() {
                    None
                } else {
                    Some(self.edit_buffer.clone())
                };
            },
            EditingField::NotificationUrgentPatterns => {
                settings.0.notification_urgent_patterns = parse_patterns(
                    self.edit_buffer.as_str(),
                );
            },
        }
        true
    }

    /// Gives up an edit.
    pub fn cancel_edit(&mut self)
        ensures
            final(self).editing is None,
            final(self).edit_buffer@.len() == 0,
    {
        self.reset_edit_state();
    }

    /// Takes the last character out of the buffer.
    fn erase_last(&mut self)
        ensures
            final(self).editing == old(self).editing,
            final(self).edit_buffer@ == if old(self).edit_buffer@.len() > 0 {
                old(self).edit_buffer@.drop_last()
            } else {
                old(self).edit_buffer@
            },
    {
        let len = self.edit_buffer.as_str().unicode_len();
        if len > 0 {
            let rest = self.edit_buffer.as_str().substring_char(0, len - 1).to_owned();
            assert(rest@ =~= self.edit_buffer@.drop_last());
            self.edit_buffer = rest;
        }
    }

    /// Takes a key. While a field is being edited, the key edits it, fills it in or gives it up;
    /// otherwise escape closes the tab.
    pub fn handle_key_down(
        &mut self,
        key: &str,
        modifiers: &Modifiers,
        key_char: &Option<String>,
        settings: &mut AppSettings,
    ) -> (outcome: SettingsKeyOutcome)
        ensures
            outcome == match old(self).editing {
                None => if key@ == "escape"@ {
                    SettingsKeyOutcome::Close
                } else {
                    SettingsKeyOutcome::Ignored
                },
                Some(field) => if key@ == "enter"@ {
                    SettingsKeyOutcome::Committed
                } else if key@ == "escape"@ {
                    SettingsKeyOutcome::Cancelled
                } else if key@ == "backspace"@ || key@ == "space"@ || typed_text(
                    key@,
                    *modifiers,
                    *key_char,
                ).len() > 0 {
                    SettingsKeyOutcome::Edited
                } else {
                    SettingsKeyOutcome::Ignored
                },
            },
            outcome is Ignored || outcome is Close ==> *final(self) == *old(self),
            outcome is Cancelled ==> final(self).editing is None && final(self).edit_buffer@.len()
                == 0,
            outcome is Committed ==> final(self).editing is None && final(self).edit_buffer
                == old(self).edit_buffer && filled_in(
                *old(settings),
                *final(settings),
                old(self).editing->0,
                old(self).edit_buffer@,
            ),
            outcome is Edited ==> final(self).editing == old(self).editing && final(
                self).edit_buffer@ == if key@ == "backspace"@ {
                if old(self).edit_buffer@.len() > 0 {
                    old(self).edit_buffer@.drop_last()
                } else {
                    old(self).edit_buffer@
                }
            } else if key@ == "space"@ {
                old(self).edit_buffer@.push(' ')
            } else {
                old(self).edit_buffer@ + typed_text(key@, *modifiers, *key_char)
            },
            !(outcome is Committed) ==> *final(settings) == *old(settings),
    {
        proof {
            reveal_strlit("enter");
            reveal_strlit("escape");
            reveal_strlit("backspace");
            reveal_strlit("space");
            assert("enter"@.len() == 5 && "escape"@.len() == 6 && "backspace"@.len() == 9);
            assert("space"@[0] == 's' && "enter"@[0] == 'e');
        }
        if self.editing.is_none() {
            return if strings::same_text(key, "escape") {
                SettingsKeyOutcome::Close
            } else {
                SettingsKeyOutcome::Ignored
            };
        }
        if strings::same_text(key, "backspace") {
            self.erase_last();
            return SettingsKeyOutcome::Edited;
        }
        if strings::same_text(key, "enter") {
            self.commit_edit(settings);
            return SettingsKeyOutcome::Committed;
        }
        if strings::same_text(key, "escape") {
            self.cancel_edit();
            return SettingsKeyOutcome::Cancelled;
        }
        if strings::same_text(key, "space") {
            self.edit_buffer.push(' ');
            return SettingsKeyOutcome::Edited;
        }
        match key_char {
            Some(typed) => {
                if !typed.as_str().is_empty() && !modifiers.platform && !modifiers.control {
                    self.edit_buffer.append(typed.as_str());
                    return SettingsKeyOutcome::Edited;
                }
            },
            None => {
                if text::byte_len(key) == 1 && !modifiers.control && !modifiers.alt
                    && !modifiers.platform {
                    proof {
                        if key@.len() == 0 {
                            assert(key@ =~= Seq::<char>::empty());
                            assert(text::bytes_of(key@).len() == 0);
                        }
                    }
                    self.edit_buffer.append(key);
                    return SettingsKeyOutcome::Edited;
                }
            },
        }
        SettingsKeyOutcome::Ignored
    }
}

/// A text field as it is drawn.
#[derive(Debug)]
pub struct TextFieldDisplay {
    pub text: String,
    pub color: u32,
    pub border: u32,
}

/// The field shows what is being typed, with a cursor behind it; or what it holds; or a placeholder
/// where it holds nothing.
pub open spec fn shows_field(
    field: TextFieldDisplay,
    palette: OrcaTheme,
    current_value: Seq<char>,
    placeholder: Seq<char>,
    is_editing: bool,
    edit_buffer: Seq<char>,
) -> bool {
    &&& field.text@ == if is_editing {
        edit_buffer + "\u{258F}"@
    } else if current_value.len() == 0 {
        placeholder
    } else {
        current_value
    }
    &&& field.color == if !is_editing && current_value.len() == 0 {
        palette.SLATE
    } else {
        palette.BONE
    }
    &&& field.border == if is_editing {
        palette.ORCA_BLUE
    } else {
        palette.SURFACE
    }
}

/// A text field as it is drawn.
pub fn text_field_display(
    palette: &OrcaTheme,
    current_value: &str,
    placeholder: &str,
    is_editing: bool,
    edit_buffer: &str,
) -> (field: TextFieldDisplay)
    ensures
        shows_field(field, *palette, current_value@, placeholder@, is_editing, edit_buffer@),
{
    TextFieldDisplay {
        text: if is_editing {
            strings::concat_text(edit_buffer, "\u{258F}")
        } else if current_value.is_empty() {
            placeholder.to_owned()
        } else {
            current_value.to_owned()
        },
        color: if !is_editing && current_value.is_empty() {
            palette.SLATE
        } else {
            palette.BONE
        },
        border: if is_editing {
            palette.ORCA_BLUE
        } else {
            palette.SURFACE
        },
    }
}

/// A heading of the settings.
#[derive(Clone, Copy, Debug, PartialEq, Eq, Structural)]
pub enum SettingsSection {
    Terminal,
    Cursor,
    Attention,
    Agents,
    Shell,
    Appearance,
}

/// A row of the settings.
#[derive(Clone, Copy, Debug, PartialEq, Eq, Structural)]
pub enum SettingsRow {
    Title,
    Section(SettingsSection),
    FontSize,
    FontFamily,
    Scrollback,
    CursorStyle,
    CursorBlink,
    ActivityPulse,
    AgentNotifications,
    UrgentPatterns,
    ResumeSessions,
    DefaultShell,
    Theme,
    SystemLight,
    SystemDark,
    Footer,
}

/// The rows of the settings. The themes for the light and the dark mode of the system are there
/// while the theme follows the system.
pub open spec fn settings_rows(settings: AppSettings) -> Seq<SettingsRow> {
    seq![
        SettingsRow::Title,
        SettingsRow::Section(SettingsSection::Terminal),
        SettingsRow::FontSize,
        SettingsRow::FontFamily,
        SettingsRow::Scrollback,
        SettingsRow::Section(SettingsSection::Cursor),
        SettingsRow::CursorStyle,
        SettingsRow::CursorBlink,
        SettingsRow::Section(SettingsSection::Attention),
        SettingsRow::ActivityPulse,
        SettingsRow::AgentNotifications,
        SettingsRow::UrgentPatterns,
        SettingsRow::Section(SettingsSection::Agents),
        SettingsRow::ResumeSessions,
        SettingsRow::Section(SettingsSection::Shell),
        SettingsRow::DefaultShell,
        SettingsRow::Section(SettingsSection::Appearance),
        SettingsRow::Theme,
    ] + (if settings.0.theme_mode == ThemeMode::System {
        seq![SettingsRow::SystemLight, SettingsRow::SystemDark]
    } else {
        Seq::empty()
    }) + seq![SettingsRow::Footer]
}

/// The rows of the settings.
pub fn render_rows(settings: &AppSettings) -> (rows: Vec<SettingsRow>)
    ensures
        rows@ == settings_rows(*settings),
{
    let mut rows: Vec<SettingsRow> = Vec::new();
    rows.push(SettingsRow::Title);
    rows.push(SettingsRow::Section(SettingsSection::Terminal));
    rows.push(SettingsRow::FontSize);
    rows.push(SettingsRow::FontFamily);
    rows.push(SettingsRow::Scrollback);
    rows.push(SettingsRow::Section(SettingsSection::Cursor));
    rows.push(SettingsRow::CursorStyle);
    rows.push(SettingsRow::CursorBlink);
    rows.push(SettingsRow::Section(SettingsSection::Attention));
    rows.push(SettingsRow::ActivityPulse);
    rows.push(SettingsRow::AgentNotifications);
    rows.push(SettingsRow::UrgentPatterns);
    rows.push(SettingsRow::Section(SettingsSection::Agents));
    rows.push(SettingsRow::ResumeSessions);
    rows.push(SettingsRow::Section(SettingsSection::Shell));
    rows.push(SettingsRow::DefaultShell);
    rows.push(SettingsRow::Section(SettingsSection::Appearance));
    rows.push(SettingsRow::Theme);
    if settings.0.theme_mode == ThemeMode::System {
        rows.push(SettingsRow::SystemLight);
        rows.push(SettingsRow::SystemDark);
    }
    rows.push(SettingsRow::Footer);
    assert(rows@ =~= settings_rows(*settings));
    rows
}

/// What a row says.
pub open spec fn row_text(row: SettingsRow) -> Seq<char> {
    match row {
        SettingsRow::Title => "Settings"@,
        SettingsRow::Section(section) => match section {
            SettingsSection::Terminal => "Terminal"@,
            SettingsSection::Cursor => "Cursor"@,
            SettingsSection::Attention => "Attention"@,
            SettingsSection::Agents => "Agents"@,
            SettingsSection::Shell => "Shell"@,
            SettingsSection::Appearance => "Appearance"@,
        },
        SettingsRow::FontSize => "Font Size"@,
        SettingsRow::FontFamily => "Font Family"@,
        SettingsRow::Scrollback => "Scrollback"@,
        SettingsRow::CursorStyle => "Style"@,
        SettingsRow::CursorBlink => "Blink"@,
        SettingsRow::ActivityPulse => "Activity Pulse"@,
        SettingsRow::AgentNotifications => "Agent Notifications"@,
        SettingsRow::UrgentPatterns => "Urgent Patterns"@,
        SettingsRow::ResumeSessions => "Resume Sessions"@,
        SettingsRow::DefaultShell => "Default Shell"@,
        SettingsRow::Theme => "Theme"@,
        SettingsRow::SystemLight => "Light Mode"@,
        SettingsRow::SystemDark => "Dark Mode"@,
        SettingsRow::Footer =>
        "Settings are saved automatically. You can also edit settings.json directly."@,
    }
}

/// What a row says.
pub fn row_label(row: SettingsRow) -> (label: &'static str)
    ensures
        label@ == row_text(row),
{
    match row {
        SettingsRow::Title => "Settings",
        SettingsRow::Section(section) => match section {
            SettingsSection::Terminal => "Terminal",
            SettingsSection::Cursor => "Cursor",
            SettingsSection::Attention => "Attention",
            SettingsSection::Agents => "Agents",
            SettingsSection::Shell => "Shell",
            SettingsSection::Appearance => "Appearance",
        },
        SettingsRow::FontSize => "Font Size",
        SettingsRow::FontFamily => "Font Family",
        SettingsRow::Scrollback => "Scrollback",
        SettingsRow::CursorStyle => "Style",
        SettingsRow::CursorBlink => "Blink",
        SettingsRow::ActivityPulse => "Activity Pulse",
        SettingsRow::AgentNotifications => "Agent Notifications",
        SettingsRow::UrgentPatterns => "Urgent Patterns",
        SettingsRow::ResumeSessions => "Resume Sessions",
        SettingsRow::DefaultShell => "Default Shell",
        SettingsRow::Theme => "Theme",
        SettingsRow::SystemLight => "Light Mode",
        SettingsRow::SystemDark => "Dark Mode",
        SettingsRow::Footer =>
        "Settings are saved automatically. You can also edit settings.json directly.",
    }
}

/// An option of a row: what choosing it changes, and whether it is chosen.
#[derive(Clone, Copy, Debug, PartialEq, Eq, Structural)]
pub struct RadioOption {
    pub change: SettingsChange,
    pub selected: bool,
}

/// An option of the theme.
pub open spec fn theme_option(settings: AppSettings, theme: ThemeId) -> RadioOption {
    RadioOption {
        change: SettingsChange::ThemeManual(theme),
        selected: settings.0.theme_mode == ThemeMode::Manual && settings.0.manual_theme == theme,
    }
}

/// The options of a row. Rows that are no choice have none.
pub open spec fn row_options(settings: AppSettings, row: SettingsRow) -> Seq<RadioOption> {
    let inner = settings.0;
    match row {
        SettingsRow::CursorStyle => seq![
            RadioOption {
                change: SettingsChange::CursorStyle(CursorStyle::Block),
                selected: inner.cursor_style == CursorStyle::Block,
            },
            RadioOption {
                change: SettingsChange::CursorStyle(CursorStyle::Bar),
                selected: inner.cursor_style == CursorStyle::Bar,
            },
            RadioOption {
                change: SettingsChange::CursorStyle(CursorStyle::Underline),
                selected: inner.cursor_style == CursorStyle::Underline,
            },
        ],
        SettingsRow::Theme => seq![
            RadioOption {
                change: SettingsChange::ThemeSystem,
                selected: inner.theme_mode == ThemeMode::System,
            },
            theme_option(settings, ThemeId::Dark),
            theme_option(settings, ThemeId::Black),
            theme_option(settings, ThemeId::Light),
            theme_option(settings, ThemeId::Sepia),
        ],
        SettingsRow::SystemLight => seq![
            RadioOption {
                change: SettingsChange::SystemLightTheme(ThemeId::Light),
                selected: inner.system_light_theme == ThemeId::Light,
            },
            RadioOption {
                change: SettingsChange::SystemLightTheme(ThemeId::Sepia),
                selected: inner.system_light_theme == ThemeId::Sepia,
            },
        ],
        SettingsRow::SystemDark => seq![
            RadioOption {
                change: SettingsChange::SystemDarkTheme(ThemeId::Dark),
                selected: inner.system_dark_theme == ThemeId::Dark,
            },
            RadioOption {
                change: SettingsChange::SystemDarkTheme(ThemeId::Black),
                selected: inner.system_dark_theme == ThemeId::Black,
            },
        ],
        _ => Seq::empty(),
    }
}

fn manual_option(settings: &AppSettings, theme: ThemeId) -> (option: RadioOption)
    ensures
        option == theme_option(*settings, theme),
{
    RadioOption {
        change: SettingsChange::ThemeManual(theme),
        selected: settings.0.theme_mode == ThemeMode::Manual && settings.0.manual_theme == theme,
    }
}

/// The options of a row.
pub fn render_options(settings: &AppSettings, row: SettingsRow) -> (options: Vec<RadioOption>)
    ensures
        options@ == row_options(*settings, row),
{
    let mut options: Vec<RadioOption> = Vec::new();
    match row {
        SettingsRow::CursorStyle => {
            let style = settings.0.cursor_style;
            options.push(
                RadioOption {
                    change: SettingsChange::CursorStyle(CursorStyle::Block),
                    selected: style == CursorStyle::Block,
                },
            );
            options.push(
                RadioOption {
                    change: SettingsChange::CursorStyle(CursorStyle::Bar),
                    selected: style == CursorStyle::Bar,
                },
            );
            options.push(
                RadioOption {
                    change: SettingsChange::CursorStyle(CursorStyle::Underline),
                    selected: style == CursorStyle::Underline,
                },
            );
        },
        SettingsRow::Theme => {
            options.push(
                RadioOption {
                    change: SettingsChange::ThemeSystem,
                    selected: settings.0.theme_mode == ThemeMode::System,
                },
            );
            options.push(manual_option(settings, ThemeId::Dark));
            options.push(manual_option(settings, ThemeId::Black));
            options.push(manual_option(settings, ThemeId::Light));
            options.push(manual_option(settings, ThemeId::Sepia));
        },
        SettingsRow::SystemLight => {
            let theme = settings.0.system_light_theme;
            options.push(
                RadioOption {
                    change: SettingsChange::SystemLightTheme(ThemeId::Light),
                    selected: theme == ThemeId::Light,
                },
            );
            options.push(
                RadioOption {
                    change: SettingsChange::SystemLightTheme(ThemeId::Sepia),
                    selected: theme == ThemeId::Sepia,
                },
            );
        },
        SettingsRow::SystemDark => {
            let theme = settings.0.system_dark_theme;
            options.push(
                RadioOption {
                    change: SettingsChange::SystemDarkTheme(ThemeId::Dark),
                    selected: theme == ThemeId::Dark,
                },
            );
            options.push(
                RadioOption {
                    change: SettingsChange::SystemDarkTheme(ThemeId::Black),
                    selected: theme == ThemeId::Black,
                },
            );
        },
        _ => {},
    }
    assert(options@ =~= row_options(*settings, row));
    options
}

/// The name of a theme.
pub open spec fn theme_name(theme: ThemeId) -> Seq<char> {
    match theme {
        ThemeId::Dark => "Dark"@,
        ThemeId::Light => "Light"@,
        ThemeId::Black => "Black"@,
        ThemeId::Sepia => "Sepia"@,
    }
}

fn theme_label(theme: ThemeId) -> (label: &'static str)
    ensures
        label@ == theme_name(theme),
{
    match theme {
        ThemeId::Dark => "Dark",
        ThemeId::Light => "Light",
        ThemeId::Black => "Black",
        ThemeId::Sepia => "Sepia",
    }
}

/// What an option, a stepper or a toggle says. A toggle says nothing, and a stepper shows a sign.
pub open spec fn change_text(change: SettingsChange) -> Seq<char> {
    match change {
        SettingsChange::FewerScrollbackLines => "\u{2212}"@,
        SettingsChange::MoreScrollbackLines => "+"@,
        SettingsChange::CursorStyle(CursorStyle::Block) => "Block"@,
        SettingsChange::CursorStyle(CursorStyle::Bar) => "Bar"@,
        SettingsChange::CursorStyle(CursorStyle::Underline) => "Underline"@,
        SettingsChange::ThemeSystem => "System"@,
        SettingsChange::ThemeManual(theme) => theme_name(theme),
        SettingsChange::SystemLightTheme(theme) => theme_name(theme),
        SettingsChange::SystemDarkTheme(theme) => theme_name(theme),
        _ => ""@,
    }
}

/// What an option, a stepper or a toggle says.
pub fn change_label(change: SettingsChange) -> (label: &'static str)
    ensures
        label@ == change_text(change),
{
    match change {
        SettingsChange::FewerScrollbackLines => "\u{2212}",
        SettingsChange::MoreScrollbackLines => "+",
        SettingsChange::CursorStyle(CursorStyle::Block) => "Block",
        SettingsChange::CursorStyle(CursorStyle::Bar) => "Bar",
        SettingsChange::CursorStyle(CursorStyle::Underline) => "Underline",
        SettingsChange::ThemeSystem => "System",
        SettingsChange::ThemeManual(theme) => theme_label(theme),
        SettingsChange::SystemLightTheme(theme) => theme_label(theme),
        SettingsChange::SystemDarkTheme(theme) => theme_label(theme),
        _ => "",
    }
}

/// Of two options of a row, one is selected after the other was chosen only where both are the same.
proof fn lemma_option_chosen(settings: AppSettings, row: SettingsRow, index: int, i: int)
    requires
        0 <= index < row_options(settings, row).len(),
        0 <= i < row_options(settings, row).len(),
    ensures
        ({
            let after = settings::changed(settings, row_options(settings, row)[index].change);
            &&& row_options(after, row).len() == row_options(settings, row).len()
            &&& row_options(after, row)[i].selected == (i == index)
        }),
{
    let options = row_options(settings, row);
    let after = settings::changed(settings, options[index].change);
    match row {
        SettingsRow::CursorStyle => {
            assert(options.len() == 3);
            assert(index == 0 || index == 1 || index == 2);
        },
        SettingsRow::Theme => {
            assert(options.len() == 5);
            if index == 0 {
                assert(after.0.theme_mode == ThemeMode::System);
            } else {
                assert(after.0.theme_mode == ThemeMode::Manual);
            }
        },
        _ => {},
    }
}

/// Choosing an option of a row selects that option and no other.
pub proof fn chosen_option_is_selected(settings: AppSettings, row: SettingsRow, index: int)
    requires
        0 <= index < row_options(settings, row).len(),
    ensures
        ({
            let after = settings::changed(settings, row_options(settings, row)[index].change);
            &&& row_options(after, row).len() == row_options(settings, row).len()
            &&& forall|i: int|
                0 <= i < row_options(after, row).len() ==> (#[trigger] row_options(
                    after,
                    row,
                )[i]).selected == (i == index)
        }),
{
    let after = settings::changed(settings, row_options(settings, row)[index].change);
    lemma_option_chosen(settings, row, index, index);
    assert forall|i: int| 0 <= i < row_options(after, row).len() implies (#[trigger] row_options(
        after,
        row,
    )[i]).selected == (i == index) by {
        lemma_option_chosen(settings, row, index, i);
    }
}

/// The toggle of a row: what a click on it changes, and whether it is on.
pub open spec fn toggle_of(settings: AppSettings, row: SettingsRow) -> Option<RadioOption> {
    match row {
        SettingsRow::CursorBlink => Some(
            RadioOption {
                change: SettingsChange::ToggleCursorBlink,
                selected: settings.0.cursor_blink,
            },
        ),
        SettingsRow::ActivityPulse => Some(
            RadioOption {
                change: SettingsChange::ToggleActivityPulse,
                selected: settings.0.activity_pulse,
            },
        ),
        SettingsRow::AgentNotifications => Some(
            RadioOption {
                change: SettingsChange::ToggleAgentNotifications,
                selected: settings.0.agent_notifications,
            },
        ),
        SettingsRow::ResumeSessions => Some(
            RadioOption {
                change: SettingsChange::ToggleResumeAgentSessions,
                selected: settings.0.resume_agent_sessions,
            },
        ),
        _ => None,
    }
}

/// The toggle of a row.
pub fn row_toggle(settings: &AppSettings, row: SettingsRow) -> (toggle: Option<RadioOption>)
    ensures
        toggle == toggle_of(*settings, row),
{
    match row {
        SettingsRow::CursorBlink => Some(
            RadioOption {
                change: SettingsChange::ToggleCursorBlink,
                selected: settings.0.cursor_blink,
            },
        ),
        SettingsRow::ActivityPulse => Some(
            RadioOption {
                change: SettingsChange::ToggleActivityPulse,
                selected: settings.0.activity_pulse,
            },
        ),
        SettingsRow::AgentNotifications => Some(
            RadioOption {
                change: SettingsChange::ToggleAgentNotifications,
                selected: settings.0.agent_notifications,
            },
        ),
        SettingsRow::ResumeSessions => Some(
            RadioOption {
                change: SettingsChange::ToggleResumeAgentSessions,
                selected: settings.0.resume_agent_sessions,
            },
        ),
        _ => None,
    }
}

/// The field of a row.
pub open spec fn field_of(row: SettingsRow) -> Option<EditingField> {
    match row {
        SettingsRow::FontFamily => Some(EditingField::FontFamily),
        SettingsRow::UrgentPatterns => Some(EditingField::NotificationUrgentPatterns),
        SettingsRow::DefaultShell => Some(EditingField::DefaultShell),
        _ => None,
    }
}

/// The field of a row, where it has one.
pub fn row_field(row: SettingsRow) -> (field: Option<EditingField>)
    ensures
        field == field_of(row),
{
    match row {
        SettingsRow::FontFamily => Some(EditingField::FontFamily),
        SettingsRow::UrgentPatterns => Some(EditingField::NotificationUrgentPatterns),
        SettingsRow::DefaultShell => Some(EditingField::DefaultShell),
        _ => None,
    }
}

/// What the two buttons of a row change: the first makes its number smaller, the second larger.
pub open spec fn steps_of(row: SettingsRow) -> Option<(SettingsChange, SettingsChange)> {
    if row == SettingsRow::Scrollback {
        Some((SettingsChange::FewerScrollbackLines, SettingsChange::MoreScrollbackLines))
    } else {
        None
    }
}

/// What the two buttons of a row change, where it has them.
pub fn row_steps(row: SettingsRow) -> (changes: Option<(SettingsChange, SettingsChange)>)
    ensures
        changes == steps_of(row),
{
    match row {
        SettingsRow::Scrollback => Some(
            (SettingsChange::FewerScrollbackLines, SettingsChange::MoreScrollbackLines),
        ),
        _ => None,
    }
}

/// What a field holds.
pub open spec fn field_text(settings: AppSettings, field: EditingField) -> Seq<char> {
    match field {
        EditingField::FontFamily => settings.0.font_family@,
        EditingField::DefaultShell => match settings.0.default_shell {
            Some(shell) => shell@,
            None => Seq::empty(),
        },
        EditingField::NotificationUrgentPatterns => strings::joined(
            strings::views(settings.0.notification_urgent_patterns@),
            ", "@,
        ),
    }
}

/// What a field holds.
pub fn field_value(settings: &AppSettings, field: EditingField) -> (value: String)
    ensures
        value@ == field_text(*settings, field),
{
    match field {
        EditingField::FontFamily => settings.0.font_family.clone(),
        EditingField::DefaultShell => match &settings.0.default_shell {
            Some(shell) => shell.clone(),
            None => String::new(),
        },
        EditingField::NotificationUrgentPatterns => strings::join(
            &settings.0.notification_urgent_patterns,
            ", ",
        ),
    }
}

/// What stands in an empty field.
pub open spec fn placeholder_text(field: EditingField, is_windows: bool) -> Seq<char> {
    match field {
        EditingField::FontFamily => "JetBrains Mono"@,
        EditingField::NotificationUrgentPatterns => "approv, permission, edit"@,
        EditingField::DefaultShell => if is_windows {
            "System default (pwsh / powershell / cmd)"@
        } else {
            "System default ($SHELL)"@
        },
    }
}

/// What stands in an empty field.
pub fn field_placeholder(field: EditingField, is_windows: bool) -> (placeholder: &'static str)
    ensures
        placeholder@ == placeholder_text(field, is_windows),
{
    match field {
        EditingField::FontFamily => "JetBrains Mono",
        EditingField::NotificationUrgentPatterns => "approv, permission, edit",
        EditingField::DefaultShell => if is_windows {
            "System default (pwsh / powershell / cmd)"
        } else {
            "System default ($SHELL)"
        },
    }
}

/// An option of a row as it is drawn.
#[derive(Debug)]
pub struct DrawnOption {
    pub change: SettingsChange,
    pub label: &'static str,
    pub look: RadioLook,
}

/// How a toggle looks. One that is on has a check mark.
#[derive(Clone, Copy, Debug, PartialEq, Eq, Structural)]
pub struct ToggleLook {
    pub border: u32,
    pub fill: u32,
    pub check_mark: Option<u32>,
}

/// How a toggle looks.
pub open spec fn toggle_look(palette: OrcaTheme, is_on: bool) -> ToggleLook {
    if is_on {
        ToggleLook { border: palette.FOG, fill: palette.FOG, check_mark: Some(palette.DEEP) }
    } else {
        ToggleLook { border: palette.SLATE, fill: palette.DEEP, check_mark: None }
    }
}

/// How a toggle looks.
pub fn render_toggle(palette: &OrcaTheme, is_on: bool) -> (look: ToggleLook)
    ensures
        look == toggle_look(*palette, is_on),
{
    if is_on {
        ToggleLook { border: palette.FOG, fill: palette.FOG, check_mark: Some(palette.DEEP) }
    } else {
        ToggleLook { border: palette.SLATE, fill: palette.DEEP, check_mark: None }
    }
}

/// What stands behind the label of a row.
#[derive(Debug)]
pub enum SettingsControl {
    /// The row is only its label.
    Nothing,
    /// The size of the font, between the buttons that make it smaller and larger.
    FontSize { value: String },
    /// The number of lines, between the buttons that make it smaller and larger, and what a click
    /// on each of them changes.
    Scrollback { fewer: SettingsChange, value: String, more: SettingsChange },
    /// A text. A click starts to edit it.
    Field { field: EditingField, display: TextFieldDisplay },
    /// Options of which one is chosen.
    Options { options: Vec<DrawnOption> },
    /// Something that is on or off.
    Toggle { change: SettingsChange, look: ToggleLook },
}

/// A row of the settings as it is drawn.
#[derive(Debug)]
pub struct SettingsElement {
    pub row: SettingsRow,
    pub label: ColoredText,
    pub control: SettingsControl,
}

/// The colour of what a row says.
pub open spec fn label_color(palette: OrcaTheme, row: SettingsRow) -> u32 {
    match row {
        SettingsRow::Title => palette.PATCH,
        SettingsRow::Section(_) => palette.PATCH,
        SettingsRow::Footer => palette.SLATE,
        _ => palette.BONE,
    }
}

/// The options are drawn like this.
pub open spec fn draws_options(
    drawn: Seq<DrawnOption>,
    palette: OrcaTheme,
    options: Seq<RadioOption>,
) -> bool {
    &&& drawn.len() == options.len()
    &&& forall|i: int|
        #![trigger drawn[i]]
        0 <= i < drawn.len() ==> drawn[i].change == options[i].change && drawn[i].label@
            == change_text(options[i].change) && drawn[i].look == widgets::radio_look(
            palette,
            options[i].selected,
        )
}

/// The row is drawn like this.
pub open spec fn draws_setting(
    element: SettingsElement,
    row: SettingsRow,
    view: SettingsView,
    settings: AppSettings,
    palette: OrcaTheme,
    font_size: Seq<char>,
    is_windows: bool,
) -> bool {
    &&& element.row == row
    &&& widgets::says(element.label, row_text(row), label_color(palette, row))
    &&& match element.control {
        SettingsControl::Nothing => row == SettingsRow::Title || row is Section || row
            == SettingsRow::Footer,
        SettingsControl::FontSize { value } => row == SettingsRow::FontSize && value@ == font_size,
        SettingsControl::Scrollback { fewer, value, more } => row == SettingsRow::Scrollback
            && steps_of(row) == Some((fewer, more)) && value@ == strings::decimal(settings.0.scrollback_lines as nat),
        SettingsControl::Field { field, display } => field_of(row) == Some(field) && shows_field(
            display,
            palette,
            field_text(settings, field),
            placeholder_text(field, is_windows),
            view.editing == Some(field),
            view.edit_buffer@,
        ),
        SettingsControl::Options { options } => row_options(settings, row).len() > 0
            && draws_options(options@, palette, row_options(settings, row)),
        SettingsControl::Toggle { change, look } => toggle_of(settings, row) is Some
            && toggle_of(settings, row)->0.change == change && look == toggle_look(
            palette,
            toggle_of(settings, row)->0.selected,
        ),
    }
}

fn draw_options(palette: &OrcaTheme, options: &Vec<RadioOption>) -> (drawn: Vec<DrawnOption>)
    ensures
        draws_options(drawn@, *palette, options@),
{
    let mut drawn: Vec<DrawnOption> = Vec::new();
    let mut i: usize = 0;
    while i < options.len()
        invariant
            i <= options@.len(),
            draws_options(drawn@, *palette, options@.take(i as int)),
        decreases options@.len() - i,
    {
        drawn.push(
            DrawnOption {
                change: options[i].change,
                label: change_label(options[i].change),
                look: widgets::radio_option(palette, options[i].selected),
            },
        );
        i = i + 1;
    }
    assert(options@.take(i as int) =~= options@);
    drawn
}

impl SettingsView {
    /// Draws a row of the settings.
    pub fn render_row(
        &self,
        palette: &OrcaTheme,
        settings: &AppSettings,
        font_size: &str,
        is_windows: bool,
        row: SettingsRow,
    ) -> (element: SettingsElement)
        ensures
            draws_setting(element, row, *self, *settings, *palette, font_size@, is_windows),
    {
        let color: u32 = match row {
            SettingsRow::Title => palette.PATCH,
            SettingsRow::Section(_) => palette.PATCH,
            SettingsRow::Footer => palette.SLATE,
            _ => palette.BONE,
        };
        let control = if let Some(field) = row_field(row) {
            let value = field_value(settings, field);
            SettingsControl::Field {
                field,
                display: text_field_display(
                    palette,
                    value.as_str(),
                    field_placeholder(field, is_windows),
                    self.editing == Some(field),
                    self.edit_buffer.as_str(),
                ),
            }
        } else if let Some(toggle) = row_toggle(settings, row) {
            SettingsControl::Toggle {
                change: toggle.change,
                look: render_toggle(palette, toggle.selected),
            }
        } else if let Some((fewer, more)) = row_steps(row) {
            SettingsControl::Scrollback {
                fewer,
                value: strings::format_decimal(settings.0.scrollback_lines as u64),
                more,
            }
        } else {
            match row {
                SettingsRow::FontSize => SettingsControl::FontSize { value: font_size.to_owned() },
                SettingsRow::CursorStyle | SettingsRow::Theme | SettingsRow::SystemLight
                | SettingsRow::SystemDark => {
                    let options = render_options(settings, row);
                    SettingsControl::Options { options: draw_options(palette, &options) }
                },
                _ => SettingsControl::Nothing,
            }
        };
        SettingsElement { row, label: widgets::colored_text(row_label(row), color), control }
    }

    /// Draws the settings, row by row. The size of the font comes as the text that shows it.
    pub fn render(
        &self,
        palette: &OrcaTheme,
        settings: &AppSettings,
        font_size: &str,
        is_windows: bool,
    ) -> (elements: Vec<SettingsElement>)
        ensures
            elements@.len() == settings_rows(*settings).len(),
            forall|i: int|
                #![trigger elements@[i]]
                0 <= i < elements@.len() ==> draws_setting(
                    elements@[i],
                    settings_rows(*settings)[i],
                    *self,
                    *settings,
                    *palette,
                    font_size@,
                    is_windows,
                ),
    {
        let rows = render_rows(settings);
        let mut elements: Vec<SettingsElement> = Vec::new();
        let mut i: usize = 0;
        while i < rows.len()
            invariant
                rows@ == settings_rows(*settings),
                i <= rows@.len(),
                elements@.len() == i,
                forall|k: int|
                    #![trigger elements@[k]]
                    0 <= k < elements@.len() ==> draws_setting(
                        elements@[k],
                        rows@[k],
                        *self,
                        *settings,
                        *palette,
                        font_size@,
                        is_windows,
                    ),
            decreases rows@.len() - i,
        {
            elements.push(self.render_row(palette, settings, font_size, is_windows, rows[i]));
            i = i + 1;
        }
        elements
    }
}

/// The pattern can stand in a list: it is not empty, has no blanks around it and holds no comma.
pub open spec fn listable(pattern: Seq<char>) -> bool {
    &&& pattern.len() > 0
    &&& strings::trimmed(pattern) == pattern
    &&& !pattern.contains(',')
}

proof fn lemma_split_at(a: Seq<char>, b: Seq<char>, separator: char)
    ensures
        strings::split(a.push(separator) + b, separator) == strings::split(a, separator)
            + strings::split(b, separator),
    decreases b.len(),
{
    lemma_split_len(a, separator);
    lemma_split_len(b, separator);
    let whole = a.push(separator) + b;
    if b.len() == 0 {
        assert(whole =~= a.push(separator));
        assert(a.push(separator).drop_last() =~= a);
        assert(strings::split(whole, separator) =~= strings::split(a, separator)
            + strings::split(b, separator));
    } else {
        lemma_split_at(a, b.drop_last(), separator);
        lemma_split_len(b.drop_last(), separator);
        assert(whole.drop_last() =~= a.push(separator) + b.drop_last());
        assert(whole.last() == b.last());
        assert(strings::split(whole, separator) =~= strings::split(a, separator)
            + strings::split(b, separator));
    }
}

proof fn lemma_split_len(chars: Seq<char>, separator: char)
    ensures
        strings::split(chars, separator).len() > 0,
    decreases chars.len(),
{
    if chars.len() > 0 {
        lemma_split_len(chars.drop_last(), separator);
    }
}

proof fn lemma_split_whole(chars: Seq<char>, separator: char)
    requires
        !chars.contains(separator),
    ensures
        strings::split(chars, separator) == seq![chars],
    decreases chars.len(),
{
    if chars.len() == 0 {
        assert(chars =~= Seq::empty());
    } else {
        let rest = chars.drop_last();
        assert(!rest.contains(separator)) by {
            if rest.contains(separator) {
                let k = choose|k: int| 0 <= k < rest.len() && rest[k] == separator;
                assert(chars[k] == separator);
            }
        }
        lemma_split_whole(rest, separator);
        assert(chars[chars.len() - 1] != separator);
        assert(rest.push(chars.last()) =~= chars);
        assert(strings::split(chars, separator) =~= seq![chars]);
    }
}

proof fn lemma_space_before(pattern: Seq<char>)
    requires
        listable(pattern),
    ensures
        strings::trimmed(seq![' '] + pattern) == pattern,
        !(seq![' '] + pattern).contains(','),
{
    let spaced = seq![' '] + pattern;
    assert(spaced.drop_first() =~= pattern);
    assert forall|k: int| 0 <= k < spaced.len() implies spaced[k] != ',' by {
        if k > 0 {
            assert(pattern[k - 1] == spaced[k]);
        }
    }
}

proof fn lemma_listed_joined(patterns: Seq<Seq<char>>)
    requires
        forall|i: int| 0 <= i < patterns.len() ==> listable(#[trigger] patterns[i]),
    ensures
        listed_patterns(strings::joined(patterns, ", "@)) == patterns,
    decreases patterns.len(),
{
    let trims = |part: Seq<char>| strings::trimmed(part);
    let keeps = |part: Seq<char>| part.len() > 0;
    reveal_strlit(", ");
    assert(", "@ =~= seq![','] + seq![' ']);
    let joined = strings::joined(patterns, ", "@);
    let none = Seq::<Seq<char>>::empty();
    assert(none.filter(keeps) =~= none) by {
        reveal(Seq::filter);
    }
    if patterns.len() == 0 {
        assert(strings::split(joined, ',').map_values(trims) =~= none.push(Seq::empty()));
        none.lemma_filter_push(Seq::empty(), keeps);
        assert(listed_patterns(joined) =~= patterns);
    } else if patterns.len() == 1 {
        lemma_split_whole(patterns[0], ',');
        assert(strings::split(joined, ',').map_values(trims) =~= none.push(patterns[0]));
        none.lemma_filter_push(patterns[0], keeps);
        assert(listed_patterns(joined) =~= patterns);
    } else {
        let rest = patterns.drop_last();
        let last = patterns.last();
        assert forall|i: int| 0 <= i < rest.len() implies listable(#[trigger] rest[i]) by {
            assert(rest[i] == patterns[i]);
        }
        lemma_listed_joined(rest);
        assert(listable(patterns[patterns.len() - 1]));
        lemma_space_before(last);
        let head = strings::joined(rest, ", "@);
        let spaced = seq![' '] + last;
        assert(joined =~= head.push(',') + spaced);
        lemma_split_at(head, spaced, ',');
        lemma_split_whole(spaced, ',');
        let before = strings::split(head, ',').map_values(trims);
        assert(strings::split(joined, ',').map_values(trims) =~= before.push(last));
        before.lemma_filter_push(last, keeps);
        assert(rest.push(last) =~= patterns);
    }
}

/// A field that is opened and filled in as it stood keeps what it held. Patterns keep it that can
/// stand in a list, and so does a shell that is not the empty text.
pub proof fn unchanged_field_survives_an_edit(
    before: AppSettings,
    after: AppSettings,
    field: EditingField,
)
    requires
        filled_in(before, after, field, field_text(before, field)),
        forall|i: int|
            0 <= i < before.0.notification_urgent_patterns@.len() ==> listable(
                (#[trigger] before.0.notification_urgent_patterns@[i])@,
            ),
        before.0.default_shell is Some ==> before.0.default_shell->0@.len() > 0,
    ensures
        after.0.font_family@ == before.0.font_family@,
        strings::optional_view(after.0.default_shell) == strings::optional_view(
            before.0.default_shell,
        ),
        strings::views(after.0.notification_urgent_patterns@) == strings::views(
            before.0.notification_urgent_patterns@,
        ),
{
    let patterns = strings::views(before.0.notification_urgent_patterns@);
    assert forall|i: int| 0 <= i < patterns.len() implies listable(#[trigger] patterns[i]) by {
        assert(listable(before.0.notification_urgent_patterns@[i]@));
    }
    lemma_listed_joined(patterns);
}

/// A click on the toggle of a row flips what that toggle shows, and no other toggle.
pub proof fn toggle_flips_what_it_shows(settings: AppSettings, row: SettingsRow, other: SettingsRow)
    requires
        toggle_of(settings, row) is Some,
    ensures
        ({
            let after = settings::changed(settings, toggle_of(settings, row)->0.change);
            &&& toggle_of(after, row) is Some
            &&& toggle_of(after, row)->0.selected == !toggle_of(settings, row)->0.selected
            &&& other != row ==> toggle_of(after, other) == toggle_of(settings, other)
            &&& row_options(after, other) == row_options(settings, other)
        }),
{
}

/// A toggle shows whether what its row is named after is on.
pub proof fn toggle_shows_its_setting(settings: AppSettings)
    ensures
        toggle_of(settings, SettingsRow::CursorBlink) is Some,
        toggle_of(settings, SettingsRow::CursorBlink)->0.selected == settings.0.cursor_blink,
        toggle_of(settings, SettingsRow::ActivityPulse) is Some,
        toggle_of(settings, SettingsRow::ActivityPulse)->0.selected == settings.0.activity_pulse,
        toggle_of(settings, SettingsRow::AgentNotifications) is Some,
        toggle_of(settings, SettingsRow::AgentNotifications)->0.selected
            == settings.0.agent_notifications,
        toggle_of(settings, SettingsRow::ResumeSessions) is Some,
        toggle_of(settings, SettingsRow::ResumeSessions)->0.selected
            == settings.0.resume_agent_sessions,
{
}

/// The first button of a row makes its number smaller, down to the limit, and the second one larger,
/// up to the limit.
pub proof fn steppers_go_their_way(settings: AppSettings)
    requires
        settings::MIN_SCROLLBACK_LINES < settings.0.scrollback_lines
            < settings::MAX_SCROLLBACK_LINES,
    ensures
        steps_of(SettingsRow::Scrollback) is Some,
        ({
            let (first, second) = steps_of(SettingsRow::Scrollback)->0;
            &&& settings::changed(settings, first).0.scrollback_lines < settings.0.scrollback_lines
            &&& settings::changed(settings, second).0.scrollback_lines > settings.0.scrollback_lines
        }),
{
}

/// A field that was filled in holds what was typed, and the other fields hold what they held. Text
/// that is listed keeps its parts between the commas.
pub proof fn filled_in_field_holds_what_was_typed(
    before: AppSettings,
    after: AppSettings,
    field: EditingField,
    other: EditingField,
    value: Seq<char>,
)
    requires
        filled_in(before, after, field, value),
    ensures
        !(field is NotificationUrgentPatterns) ==> field_text(after, field) == value,
        other != field ==> field_text(after, other) == field_text(before, other),
        field is DefaultShell ==> (after.0.default_shell is None) == (value.len() == 0),
{
    if field is DefaultShell && value.len() == 0 {
        assert(value =~= Seq::<char>::empty());
    }
}

/// A listed pattern has no blanks around it, is not empty, and is one of the parts between the
/// commas without the blanks around it; and every part that is more than blanks is listed.
pub proof fn listed_patterns_are_the_parts(value: Seq<char>, pattern: Seq<char>)
    ensures
        listed_patterns(value).contains(pattern) == (pattern.len() > 0 && exists|i: int|
            0 <= i < strings::split(value, ',').len() && strings::trimmed(
                #[trigger] strings::split(value, ',')[i],
            ) == pattern),
{
    let parts = strings::split(value, ',');
    let trims = |part: Seq<char>| strings::trimmed(part);
    let keeps = |part: Seq<char>| part.len() > 0;
    let all = parts.map_values(trims);
    broadcast use vstd::seq_lib::group_filter_ensures;
    if listed_patterns(value).contains(pattern) {
        let k = choose|k: int|
            0 <= k < listed_patterns(value).len() && listed_patterns(value)[k] == pattern;
        assert(all.filter(keeps).contains(all.filter(keeps)[k]));
        all.lemma_filter_contains_rev(keeps, pattern);
        assert(all.contains(pattern));
        let i = choose|i: int| 0 <= i < all.len() && all[i] == pattern;
        assert(strings::trimmed(parts[i]) == pattern);
    }
    if pattern.len() > 0 && exists|i: int|
        0 <= i < parts.len() && strings::trimmed(#[trigger] parts[i]) == pattern {
        let i = choose|i: int| 0 <= i < parts.len() && strings::trimmed(#[trigger] parts[i])
            == pattern;
        assert(all[i] == pattern);
        assert(all.contains(pattern));
        assert(keeps(pattern));
        assert(all.filter(keeps).contains(pattern));
    }
}

/// What a key types into a field is what the keyboard says it types, unless a command is being
/// given; where the keyboard says nothing, a name of one byte is typed as it is.
pub proof fn commands_type_nothing(key: Seq<char>, modifiers: Modifiers, key_char: Option<String>)
    ensures
        modifiers.platform || modifiers.control ==> typed_text(key, modifiers, key_char).len() == 0,
        !modifiers.platform && !modifiers.control && key_char is Some ==> typed_text(
            key,
            modifiers,
            key_char,
        ) == key_char->0@,
        !modifiers.platform && !modifiers.control && !modifiers.alt && key_char is None
            && text::bytes_of(key).len() == 1 ==> typed_text(key, modifiers, key_char) == key,
        key_char is None && (text::bytes_of(key).len() != 1 || modifiers.alt) ==> typed_text(
            key,
            modifiers,
            key_char,
        ).len() == 0,
{
}

/// The rows of the settings show each row once. The themes for the light and the dark mode of the
/// system are shown exactly while the theme follows the system, and every other row always.
pub proof fn rows_show_every_setting_once(settings: AppSettings, row: SettingsRow)
    ensures
        settings_rows(settings).no_duplicates(),
        settings_rows(settings).contains(row) == (settings.0.theme_mode is System || !(
        row is SystemLight || row is SystemDark)),
{
    let rows = settings_rows(settings);
    let fixed = seq![
        SettingsRow::Title,
        SettingsRow::Section(SettingsSection::Terminal),
        SettingsRow::FontSize,
        SettingsRow::FontFamily,
        SettingsRow::Scrollback,
        SettingsRow::Section(SettingsSection::Cursor),
        SettingsRow::CursorStyle,
        SettingsRow::CursorBlink,
        SettingsRow::Section(SettingsSection::Attention),
        SettingsRow::ActivityPulse,
        SettingsRow::AgentNotifications,
        SettingsRow::UrgentPatterns,
        SettingsRow::Section(SettingsSection::Agents),
        SettingsRow::ResumeSessions,
        SettingsRow::Section(SettingsSection::Shell),
        SettingsRow::DefaultShell,
        SettingsRow::Section(SettingsSection::Appearance),
        SettingsRow::Theme,
    ];
    assert(rows.take(18) =~= fixed);
    assert(forall|i: int| 0 <= i < 18 ==> rows[i] == rows.take(18)[i]);
    if settings.0.theme_mode is System {
        assert(rows[18] == SettingsRow::SystemLight && rows[19] == SettingsRow::SystemDark
            && rows[20] == SettingsRow::Footer && rows.len() == 21);
    } else {
        assert(rows[18] == SettingsRow::Footer && rows.len() == 19);
    }
}

/// The row for the light mode of the system sets the theme of the light mode, the row for the dark
/// mode that of the dark mode, and each option sets the theme that it is named after.
pub proof fn theme_options_set_the_theme_they_name(
    settings: AppSettings,
    row: SettingsRow,
    index: int,
)
    requires
        0 <= index < row_options(settings, row).len(),
        row is SystemLight || row is SystemDark || (row is Theme && index > 0),
    ensures
        ({
            let change = row_options(settings, row)[index].change;
            let after = settings::changed(settings, change).0;
            &&& row is SystemLight ==> change_text(change) == theme_name(after.system_light_theme)
                && row_text(row) == "Light Mode"@
            &&& row is SystemDark ==> change_text(change) == theme_name(after.system_dark_theme)
                && row_text(row) == "Dark Mode"@
            &&& row is Theme ==> change_text(change) == theme_name(after.manual_theme)
                && after.theme_mode is Manual
        }),
{
    assert(index == 0 || index == 1 || index == 2 || index == 3 || index == 4);
}

/// Themes with the same name are the same theme, and the name of a theme is its own.
pub proof fn theme_names_are_told_apart(a: ThemeId, b: ThemeId)
    ensures
        (theme_name(a) == theme_name(b)) == (a == b),
        theme_name(ThemeId::Dark)[0] == 'D',
        theme_name(ThemeId::Light)[0] == 'L',
        theme_name(ThemeId::Black)[0] == 'B',
        theme_name(ThemeId::Sepia)[0] == 'S',
{
    reveal_strlit("Dark");
    reveal_strlit("Light");
    reveal_strlit("Black");
    reveal_strlit("Sepia");
    assert(theme_name(a)[0] == theme_name(b)[0] ==> a == b);
}

/// What is typed into a field is added at its end, and the backspace key takes a typed character back.
/// Neither changes a setting.
pub proof fn backspace_takes_back_what_was_typed(
    typing: &mut SettingsView,
    erasing: &mut SettingsView,
    key: &str,
    backspace: &str,
    modifiers: &Modifiers,
    key_char: &Option<String>,
    settings: &mut AppSettings,
    later: &mut AppSettings,
    typed: SettingsKeyOutcome,
    erased: SettingsKeyOutcome,
)
    requires
        backspace@ == "backspace"@,
        key@ != "enter"@ && key@ != "escape"@ && key@ != "backspace"@ && key@ != "space"@,
        old(typing).editing is Some,
        typed_text(key@, *modifiers, *key_char).len() == 1,
        call_ensures(
            SettingsView::handle_key_down,
            (typing, key, modifiers, key_char, settings),
            typed,
        ),
        call_ensures(
            SettingsView::handle_key_down,
            (erasing, backspace, modifiers, key_char, later),
            erased,
        ),
    ensures
        *final(settings) == *old(settings),
        final(typing).editing == old(typing).editing,
        final(typing).edit_buffer@ == old(typing).edit_buffer@ + typed_text(
            key@,
            *modifiers,
            *key_char,
        ),
        *old(erasing) == *final(typing) ==> {
            &&& final(erasing).edit_buffer@ == old(typing).edit_buffer@
            &&& final(erasing).editing == old(typing).editing
            &&& *final(later) == *old(later)
        },
{
    reveal_strlit("backspace");
    reveal_strlit("enter");
    reveal_strlit("escape");
    assert("backspace"@.len() == 9 && "enter"@.len() == 5 && "escape"@.len() == 6);
    assert(backspace@ != "enter"@);
    assert(backspace@ != "escape"@);
    assert((old(typing).edit_buffer@ + typed_text(key@, *modifiers, *key_char)).drop_last()
        =~= old(typing).edit_buffer@);
}

/// The settings stay as they are unless a field that is being edited is committed with the enter key;
/// the escape key never changes them.
pub proof fn only_enter_changes_a_setting(
    view: &mut SettingsView,
    key: &str,
    modifiers: &Modifiers,
    key_char: &Option<String>,
    settings: &mut AppSettings,
    outcome: SettingsKeyOutcome,
)
    requires
        call_ensures(
            SettingsView::handle_key_down,
            (view, key, modifiers, key_char, settings),
            outcome,
        ),
    ensures
        key@ != "enter"@ || old(view).editing is None ==> *final(settings) == *old(settings),
        key@ == "escape"@ ==> final(view).editing is None,
        key@ == "enter"@ ==> final(view).editing is None,
        key@ == "enter"@ && old(view).editing is Some ==> field_text(
            *final(settings),
            old(view).editing->0,
        ) == old(view).edit_buffer@ || old(view).editing->0 is NotificationUrgentPatterns,
{
    reveal_strlit("enter");
    reveal_strlit("escape");
    assert("enter"@.len() == 5 && "escape"@.len() == 6);
    if key@ == "enter"@ {
        assert(key@ != "escape"@);
        if old(view).editing is Some {
            filled_in_field_holds_what_was_typed(
                *old(settings),
                *final(settings),
                old(view).editing->0,
                old(view).editing->0,
                old(view).edit_buffer@,
            );
        }
    }
}

} // verus!
