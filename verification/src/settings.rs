//! The settings of the application.

use crate::theme::ThemeId;
use vstd::prelude::*;

verus! {

/// Whether the theme follows the system.
#[derive(Clone, Copy, Debug, PartialEq, Eq, Structural)]
pub enum ThemeMode {
    System,
    Manual,
}

/// How the cursor is drawn.
#[derive(Clone, Copy, Debug, PartialEq, Eq, Structural)]
pub enum CursorStyle {
    Block,
    Bar,
    Underline,
}

/// The settings as they are stored, but for the font size.
#[derive(Debug, PartialEq, Eq)]
pub struct AppSettingsInner {
    pub font_family: String,
    pub scrollback_lines: usize,
    pub cursor_style: CursorStyle,
    pub cursor_blink: bool,
    pub activity_pulse: bool,
    pub agent_notifications: bool,
    pub notification_urgent_patterns: Vec<String>,
    pub resume_agent_sessions: bool,
    pub default_shell: Option<String>,
    pub theme_mode: ThemeMode,
    pub manual_theme: ThemeId,
    pub system_light_theme: ThemeId,
    pub system_dark_theme: ThemeId,
}

/// The settings of the application.
#[derive(Debug, PartialEq, Eq)]
pub struct AppSettings(pub AppSettingsInner);

impl AppSettings {
    /// The settings as they are stored.
    pub fn into_inner(self) -> (inner: AppSettingsInner)
        ensures
            inner == self.0,
    {
        self.0
    }
}

/// The fewest lines of scrollback.
pub const MIN_SCROLLBACK_LINES: usize = 100;

/// The most lines of scrollback that a step leads to.
pub const MAX_SCROLLBACK_LINES: usize = 100_000;

/// A step of the lines of scrollback.
pub const SCROLLBACK_STEP: usize = 1000;

/// One step fewer lines of scrollback, but no fewer than the fewest.
pub open spec fn scrollback_below(lines: int) -> int {
    if lines - SCROLLBACK_STEP >= MIN_SCROLLBACK_LINES {
        lines - SCROLLBACK_STEP
    } else {
        MIN_SCROLLBACK_LINES as int
    }
}

/// One step more lines of scrollback, but no more than the most.
pub open spec fn scrollback_above(lines: int) -> int {
    if lines + SCROLLBACK_STEP <= MAX_SCROLLBACK_LINES {
        lines + SCROLLBACK_STEP
    } else {
        MAX_SCROLLBACK_LINES as int
    }
}

/// A change to the settings that one click makes.
#[derive(Clone, Copy, Debug, PartialEq, Eq, Structural)]
pub enum SettingsChange {
    FewerScrollbackLines,
    MoreScrollbackLines,
    CursorStyle(CursorStyle),
    ToggleCursorBlink,
    ToggleActivityPulse,
    ToggleAgentNotifications,
    ToggleResumeAgentSessions,
    ThemeSystem,
    ThemeManual(ThemeId),
    SystemLightTheme(ThemeId),
    SystemDarkTheme(ThemeId),
}

/// The settings after a change.
pub open spec fn changed(settings: AppSettings, change: SettingsChange) -> AppSettings {
    let inner = settings.0;
    AppSettings(
        match change {
            SettingsChange::FewerScrollbackLines => AppSettingsInner {
                scrollback_lines: scrollback_below(inner.scrollback_lines as int) as usize,
                ..inner
            },
            SettingsChange::MoreScrollbackLines => AppSettingsInner {
                scrollback_lines: scrollback_above(inner.scrollback_lines as int) as usize,
                ..inner
            },
            SettingsChange::CursorStyle(style) => AppSettingsInner { cursor_style: style, ..inner },
            SettingsChange::ToggleCursorBlink => AppSettingsInner {
                cursor_blink: !inner.cursor_blink,
                ..inner
            },
            SettingsChange::ToggleActivityPulse => AppSettingsInner {
                activity_pulse: !inner.activity_pulse,
                ..inner
            },
            SettingsChange::ToggleAgentNotifications => AppSettingsInner {
                agent_notifications: !inner.agent_notifications,
                ..inner
            },
            SettingsChange::ToggleResumeAgentSessions => AppSettingsInner {
                resume_agent_sessions: !inner.resume_agent_sessions,
                ..inner
            },
            SettingsChange::ThemeSystem => AppSettingsInner {
                theme_mode: ThemeMode::System,
                ..inner
            },
            SettingsChange::ThemeManual(theme) => AppSettingsInner {
                theme_mode: ThemeMode::Manual,
                manual_theme: theme,
                ..inner
            },
            SettingsChange::SystemLightTheme(theme) => AppSettingsInner {
                system_light_theme: theme,
                ..inner
            },
            SettingsChange::SystemDarkTheme(theme) => AppSettingsInner {
                system_dark_theme: theme,
                ..inner
            },
        },
    )
}

/// Makes a change to the settings.
pub fn apply_change(settings: &mut AppSettings, change: SettingsChange)
    ensures
        *final(settings) == changed(*old(settings), change),
{
    match change {
        SettingsChange::FewerScrollbackLines => {
            let lines = settings.0.scrollback_lines;
            settings.0.scrollback_lines =
            if lines >= MIN_SCROLLBACK_LINES + SCROLLBACK_STEP {
                lines - SCROLLBACK_STEP
            } else {
                MIN_SCROLLBACK_LINES
            };
        },
        SettingsChange::MoreScrollbackLines => {
            let lines = settings.0.scrollback_lines;
            settings.0.scrollback_lines =
            if lines <= MAX_SCROLLBACK_LINES - SCROLLBACK_STEP {
                lines + SCROLLBACK_STEP
            } else {
                MAX_SCROLLBACK_LINES
            };
        },
        SettingsChange::CursorStyle(style) => {
            settings.0.cursor_style = style;
        },
        SettingsChange::ToggleCursorBlink => {
            settings.0.cursor_blink = !settings.0.cursor_blink;
        },
        SettingsChange::ToggleActivityPulse => {
            settings.0.activity_pulse = !settings.0.activity_pulse;
        },
        SettingsChange::ToggleAgentNotifications => {
            settings.0.agent_notifications = !settings.0.agent_notifications;
        },
        SettingsChange::ToggleResumeAgentSessions => {
            settings.0.resume_agent_sessions = !settings.0.resume_agent_sessions;
        },
        SettingsChange::ThemeSystem => {
            settings.0.theme_mode = ThemeMode::System;
        },
        SettingsChange::ThemeManual(theme) => {
            settings.0.theme_mode = ThemeMode::Manual;
            settings.0.manual_theme = theme;
        },
        SettingsChange::SystemLightTheme(theme) => {
            settings.0.system_light_theme = theme;
        },
        SettingsChange::SystemDarkTheme(theme) => {
            settings.0.system_dark_theme = theme;
        },
    }
}

/// Steps of the scrollback lines stay within the limits.
pub proof fn scrollback_stays_in_limits(settings: AppSettings)
    ensures
        changed(settings, SettingsChange::FewerScrollbackLines).0.scrollback_lines
            >= MIN_SCROLLBACK_LINES,
        changed(settings, SettingsChange::MoreScrollbackLines).0.scrollback_lines
            <= MAX_SCROLLBACK_LINES,
{
}

/// A toggle that is flipped twice is as it was.
pub proof fn toggles_flip_back(settings: AppSettings, change: SettingsChange)
    requires
        change is ToggleCursorBlink || change is ToggleActivityPulse
            || change is ToggleAgentNotifications || change is ToggleResumeAgentSessions,
    ensures
        changed(changed(settings, change), change) == settings,
{
}

/// A step makes the lines of scrollback fewer or more by a thousand while that stays within the
/// limits, and the other step takes it back.
pub proof fn scrollback_steps_take_each_other_back(settings: AppSettings)
    ensures
        ({
            let lines = settings.0.scrollback_lines;
            let fewer = changed(settings, SettingsChange::FewerScrollbackLines);
            let more = changed(settings, SettingsChange::MoreScrollbackLines);
            &&& lines >= 1_100 ==> fewer.0.scrollback_lines == lines - 1_000
            &&& lines <= 99_000 ==> more.0.scrollback_lines == lines + 1_000
            &&& 1_100 <= lines <= 100_000 ==> changed(fewer, SettingsChange::MoreScrollbackLines)
                == settings
            &&& 100 <= lines <= 99_000 ==> changed(more, SettingsChange::FewerScrollbackLines)
                == settings
        }),
{
}

/// Every change sets what it names and leaves everything else as it was.
pub proof fn change_sets_what_it_names(settings: AppSettings, change: SettingsChange)
    ensures
        ({
            let before = settings.0;
            let after = changed(settings, change).0;
            &&& !(change is FewerScrollbackLines || change is MoreScrollbackLines)
                ==> after.scrollback_lines == before.scrollback_lines
            &&& (change matches SettingsChange::CursorStyle(style) ==> after.cursor_style == style)
            &&& !(change is CursorStyle) ==> after.cursor_style == before.cursor_style
            &&& after.cursor_blink == (before.cursor_blink != (change is ToggleCursorBlink))
            &&& after.activity_pulse == (before.activity_pulse != (change is ToggleActivityPulse))
            &&& after.agent_notifications == (before.agent_notifications != (
            change is ToggleAgentNotifications))
            &&& after.resume_agent_sessions == (before.resume_agent_sessions != (
            change is ToggleResumeAgentSessions))
            &&& change is ThemeSystem ==> after.theme_mode is System
            &&& (change matches SettingsChange::ThemeManual(theme) ==> after.theme_mode is Manual
                && after.manual_theme == theme)
            &&& !(change is ThemeManual) ==> after.manual_theme == before.manual_theme
            &&& !(change is ThemeManual || change is ThemeSystem) ==> after.theme_mode
                == before.theme_mode
            &&& (change matches SettingsChange::SystemLightTheme(theme)
                ==> after.system_light_theme == theme)
            &&& !(change is SystemLightTheme) ==> after.system_light_theme
                == before.system_light_theme
            &&& (change matches SettingsChange::SystemDarkTheme(theme) ==> after.system_dark_theme
                == theme)
            &&& !(change is SystemDarkTheme) ==> after.system_dark_theme == before.system_dark_theme
            &&& after.font_family == before.font_family
            &&& after.default_shell == before.default_shell
            &&& after.notification_urgent_patterns == before.notification_urgent_patterns
        }),
{
}

} // verus!
