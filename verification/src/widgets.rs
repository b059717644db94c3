//! The looks of buttons, banners, pills and rows.

use crate::model::GitFileStatus;
use crate::strings;
use crate::theme::{OrcaTheme, Tint};
use vstd::prelude::*;
use vstd::string::*;

verus! {

/// An opaque colour.
pub open spec fn opaque(color: u32) -> Tint {
    Tint { color, alpha: 0xFF }
}

/// How a button looks. A disabled one takes no clicks, has an arrow for its pointer and is drawn
/// at half its opacity.
#[derive(Clone, Copy, Debug, PartialEq, Eq, Structural)]
pub struct ButtonLook {
    pub clickable: bool,
    pub fill: Tint,
    pub border: u32,
    pub text: u32,
    pub hover_fill: Option<Tint>,
    pub hover_text: Option<u32>,
}

/// How a disabled button looks.
pub open spec fn disabled_look(palette: OrcaTheme) -> ButtonLook {
    ButtonLook {
        clickable: false,
        fill: opaque(palette.CURRENT),
        border: palette.BORDER_DEFAULT,
        text: palette.SLATE,
        hover_fill: None,
        hover_text: None,
    }
}

fn disabled_button(palette: &OrcaTheme) -> (look: ButtonLook)
    ensures
        look == disabled_look(*palette),
{
    ButtonLook {
        clickable: false,
        fill: Tint { color: palette.CURRENT, alpha: 0xFF },
        border: palette.BORDER_DEFAULT,
        text: palette.SLATE,
        hover_fill: None,
        hover_text: None,
    }
}

/// A text and its colour.
#[derive(Debug, PartialEq, Eq)]
pub struct ColoredText {
    pub text: String,
    pub color: u32,
}

/// The text says this, in this colour.
pub open spec fn says(text: ColoredText, content: Seq<char>, color: u32) -> bool {
    text.text@ == content && text.color == color
}

/// The texts and their colours.
pub open spec fn text_views(texts: Seq<ColoredText>) -> Seq<(Seq<char>, u32)> {
    texts.map_values(|text: ColoredText| (text.text@, text.color))
}

/// A text in a colour.
pub fn colored_text(text: &str, color: u32) -> (colored: ColoredText)
    ensures
        says(colored, text@, color),
{
    ColoredText { text: text.to_owned(), color }
}

/// The tone of a toolbar button.
#[derive(Clone, Copy, Debug, PartialEq, Eq, Structural)]
pub enum ActionButtonTone {
    Default,
    Primary,
    Destructive,
}

/// How an enabled toolbar button looks.
pub open spec fn toned_look(palette: OrcaTheme, tone: ActionButtonTone) -> ButtonLook {
    let (hover, fill, border, text) = match tone {
        ActionButtonTone::Default => (
            Tint { color: palette.ORCA_BLUE, alpha: 0x1A },
            Tint { color: palette.ORCA_BLUE, alpha: 0x0C },
            palette.BORDER_EMPHASIS,
            palette.FOG,
        ),
        ActionButtonTone::Primary => (
            Tint { color: palette.ORCA_BLUE, alpha: 0x34 },
            Tint { color: palette.ORCA_BLUE, alpha: 0x18 },
            palette.ORCA_BLUE,
            palette.PATCH,
        ),
        ActionButtonTone::Destructive => (
            Tint { color: palette.STATUS_CORAL, alpha: 0x1F },
            Tint { color: palette.CURRENT, alpha: 0xFF },
            palette.BORDER_EMPHASIS,
            palette.STATUS_CORAL,
        ),
    };
    ButtonLook {
        clickable: true,
        fill,
        border,
        text,
        hover_fill: Some(hover),
        hover_text: Some(palette.BONE),
    }
}

/// How a toolbar button looks.
pub fn action_bar_button_toned(
    palette: &OrcaTheme,
    disabled: bool,
    tone: ActionButtonTone,
) -> (look: ButtonLook)
    ensures
        look == if disabled {
            disabled_look(*palette)
        } else {
            toned_look(*palette, tone)
        },
{
    if disabled {
        return disabled_button(palette);
    }
    let (hover, fill, border, text): (Tint, Tint, u32, u32) = match tone {
        ActionButtonTone::Default => (
            Tint { color: palette.ORCA_BLUE, alpha: 0x1A },
            Tint { color: palette.ORCA_BLUE, alpha: 0x0C },
            palette.BORDER_EMPHASIS,
            palette.FOG,
        ),
        ActionButtonTone::Primary => (
            Tint { color: palette.ORCA_BLUE, alpha: 0x34 },
            Tint { color: palette.ORCA_BLUE, alpha: 0x18 },
            palette.ORCA_BLUE,
            palette.PATCH,
        ),
        ActionButtonTone::Destructive => (
            Tint { color: palette.STATUS_CORAL, alpha: 0x1F },
            Tint { color: palette.CURRENT, alpha: 0xFF },
            palette.BORDER_EMPHASIS,
            palette.STATUS_CORAL,
        ),
    };
    ButtonLook {
        clickable: true,
        fill,
        border,
        text,
        hover_fill: Some(hover),
        hover_text: Some(palette.BONE),
    }
}

/// How a button of the repository browser looks.
pub open spec fn repository_button_look(
    palette: OrcaTheme,
    disabled: bool,
    destructive: bool,
) -> ButtonLook {
    if disabled {
        disabled_look(palette)
    } else if destructive {
        ButtonLook {
            clickable: true,
            fill: Tint { color: palette.STATUS_CORAL, alpha: 0x0C },
            border: palette.STATUS_CORAL,
            text: palette.STATUS_CORAL,
            hover_fill: Some(Tint { color: palette.STATUS_CORAL, alpha: 0x1A }),
            hover_text: Some(palette.BONE),
        }
    } else {
        ButtonLook {
            clickable: true,
            fill: Tint { color: palette.ORCA_BLUE, alpha: 0x0C },
            border: palette.BORDER_EMPHASIS,
            text: palette.FOG,
            hover_fill: Some(Tint { color: palette.ORCA_BLUE, alpha: 0x1A }),
            hover_text: Some(palette.BONE),
        }
    }
}

/// How a button of the repository browser looks.
pub fn repository_action_button(palette: &OrcaTheme, disabled: bool, destructive: bool) -> (look:
    ButtonLook)
    ensures
        look == repository_button_look(*palette, disabled, destructive),
{
    if disabled {
        return disabled_button(palette);
    }
    let accent: u32 = if destructive {
        palette.STATUS_CORAL
    } else {
        palette.ORCA_BLUE
    };
    ButtonLook {
        clickable: true,
        fill: Tint { color: accent, alpha: 0x0C },
        border: if destructive {
            palette.STATUS_CORAL
        } else {
            palette.BORDER_EMPHASIS
        },
        text: if destructive {
            palette.STATUS_CORAL
        } else {
            palette.FOG
        },
        hover_fill: Some(Tint { color: accent, alpha: 0x1A }),
        hover_text: Some(palette.BONE),
    }
}

/// How a button of a prompt dialog looks.
pub fn prompt_dialog_button(palette: &OrcaTheme, disabled: bool, border: u32, fill: Tint) -> (look:
    ButtonLook)
    ensures
        look == if disabled {
            disabled_look(*palette)
        } else {
            ButtonLook {
                clickable: true,
                fill,
                border,
                text: palette.PATCH,
                hover_fill: None,
                hover_text: Some(palette.BONE),
            }
        },
{
    if disabled {
        return disabled_button(palette);
    }
    ButtonLook {
        clickable: true,
        fill,
        border,
        text: palette.PATCH,
        hover_fill: None,
        hover_text: Some(palette.BONE),
    }
}

/// What a banner tells.
#[derive(Clone, Copy, Debug, PartialEq, Eq, Structural)]
pub enum ActionBannerKind {
    Success,
    Warning,
    Error,
}

/// A message about the last action.
#[derive(Debug, PartialEq, Eq)]
pub struct ActionBanner {
    pub kind: ActionBannerKind,
    pub message: String,
}

impl Clone for ActionBanner {
    fn clone(&self) -> (result: Self)
        ensures
            result == *self,
    {
        ActionBanner { kind: self.kind, message: self.message.clone() }
    }
}

/// The colour of a banner.
pub open spec fn banner_color(palette: OrcaTheme, kind: ActionBannerKind) -> u32 {
    match kind {
        ActionBannerKind::Success => palette.STATUS_GREEN,
        ActionBannerKind::Warning => palette.STATUS_AMBER,
        ActionBannerKind::Error => palette.STATUS_CORAL,
    }
}

/// How a banner looks.
#[derive(Clone, Copy, Debug, PartialEq, Eq, Structural)]
pub struct BannerLook {
    pub fill: Tint,
    pub border: Tint,
    pub text: u32,
}

fn pick_banner_color(palette: &OrcaTheme, kind: ActionBannerKind) -> (color: u32)
    ensures
        color == banner_color(*palette, kind),
{
    match kind {
        ActionBannerKind::Success => palette.STATUS_GREEN,
        ActionBannerKind::Warning => palette.STATUS_AMBER,
        ActionBannerKind::Error => palette.STATUS_CORAL,
    }
}

/// How the banner of a diff tab looks.
pub open spec fn tab_banner_look(palette: OrcaTheme, kind: ActionBannerKind) -> BannerLook {
    BannerLook {
        fill: Tint { color: banner_color(palette, kind), alpha: 0x12 },
        border: Tint { color: banner_color(palette, kind), alpha: 0x30 },
        text: banner_color(palette, kind),
    }
}

/// How the banner of a diff tab looks.
pub fn diff_banner_look(palette: &OrcaTheme, kind: ActionBannerKind) -> (look: BannerLook)
    ensures
        look == tab_banner_look(*palette, kind),
{
    let color = pick_banner_color(palette, kind);
    BannerLook {
        fill: Tint { color, alpha: 0x12 },
        border: Tint { color, alpha: 0x30 },
        text: color,
    }
}

/// How the banner of the repository browser looks.
pub open spec fn repository_banner_look(palette: OrcaTheme, kind: ActionBannerKind) -> BannerLook {
    BannerLook {
        fill: Tint { color: banner_color(palette, kind), alpha: 0x12 },
        border: opaque(banner_color(palette, kind)),
        text: banner_color(palette, kind),
    }
}

/// How the banner of the repository browser looks.
pub fn render_action_banner(palette: &OrcaTheme, kind: ActionBannerKind) -> (look: BannerLook)
    ensures
        look == repository_banner_look(*palette, kind),
{
    let color = pick_banner_color(palette, kind);
    BannerLook {
        fill: Tint { color, alpha: 0x12 },
        border: Tint { color, alpha: 0xFF },
        text: color,
    }
}

/// A one-letter mark with its colour.
#[derive(Clone, Copy, Debug, PartialEq, Eq, Structural)]
pub struct StatusPill {
    pub letter: char,
    pub color: u32,
    pub fill: Tint,
}

/// The letter of a file status.
pub open spec fn status_letter(status: GitFileStatus) -> char {
    match status {
        GitFileStatus::Added => 'A',
        GitFileStatus::Modified => 'M',
        GitFileStatus::Deleted => 'D',
        GitFileStatus::Renamed => 'R',
        GitFileStatus::Typechange => 'T',
        GitFileStatus::Untracked => '?',
        GitFileStatus::Conflicted => 'C',
    }
}

/// The colour of a file status.
pub open spec fn status_color(palette: OrcaTheme, status: GitFileStatus) -> u32 {
    match status {
        GitFileStatus::Added => palette.STATUS_GREEN,
        GitFileStatus::Modified => palette.ORCA_BLUE,
        GitFileStatus::Deleted => palette.STATUS_CORAL,
        GitFileStatus::Renamed => palette.SEAFOAM,
        GitFileStatus::Typechange => palette.FOG,
        GitFileStatus::Untracked => palette.STATUS_AMBER,
        GitFileStatus::Conflicted => palette.STATUS_CORAL,
    }
}

/// The mark of a file status.
pub fn status_pill(palette: &OrcaTheme, status: GitFileStatus) -> (pill: StatusPill)
    ensures
        pill == (StatusPill {
            letter: status_letter(status),
            color: status_color(*palette, status),
            fill: Tint { color: status_color(*palette, status), alpha: 0x12 },
        }),
{
    let (letter, color): (char, u32) = match status {
        GitFileStatus::Added => ('A', palette.STATUS_GREEN),
        GitFileStatus::Modified => ('M', palette.ORCA_BLUE),
        GitFileStatus::Deleted => ('D', palette.STATUS_CORAL),
        GitFileStatus::Renamed => ('R', palette.SEAFOAM),
        GitFileStatus::Typechange => ('T', palette.FOG),
        GitFileStatus::Untracked => ('?', palette.STATUS_AMBER),
        GitFileStatus::Conflicted => ('C', palette.STATUS_CORAL),
    };
    StatusPill { letter, color, fill: Tint { color, alpha: 0x12 } }
}

/// The heading of a section with the number of its entries.
pub fn section_header(label: &str, count: usize) -> (heading: String)
    ensures
        heading@ == label@ + " ("@ + strings::decimal(count as nat) + ")"@,
{
    let mut heading = label.to_owned();
    heading.append(" (");
    strings::push_decimal(&mut heading, count as u64);
    heading.append(")");
    heading
}

/// A count in parentheses behind a label, where there is anything to count.
pub fn label_with_count(label: &str, count: usize) -> (text: String)
    ensures
        text@ == if count > 0 {
            label@ + " ("@ + strings::decimal(count as nat) + ")"@
        } else {
            label@
        },
{
    if count > 0 {
        section_header(label, count)
    } else {
        label.to_owned()
    }
}

/// A message that fills an empty pane.
#[derive(Debug)]
pub struct PanelMessage {
    pub title: String,
    pub detail: Option<String>,
}

impl PanelMessage {
    /// The message says this.
    pub open spec fn says(self, title: Seq<char>, detail: Option<Seq<char>>) -> bool {
        self.title@ == title && strings::optional_view(self.detail) == detail
    }

    /// A message with a title and a detail.
    pub fn new(title: &str, detail: Option<&str>) -> (message: Self)
        ensures
            message.says(
                title@,
                match detail {
                    Some(detail) => Some(detail@),
                    None => None,
                },
            ),
    {
        PanelMessage {
            title: title.to_owned(),
            detail: match detail {
                Some(detail) => Some(detail.to_owned()),
                None => None,
            },
        }
    }
}

/// A title and a detail.
pub struct PanelText {
    pub title: Seq<char>,
    pub detail: Option<Seq<char>>,
}

impl View for PanelMessage {
    type V = PanelText;

    open spec fn view(&self) -> PanelText {
        PanelText { title: self.title@, detail: strings::optional_view(self.detail) }
    }
}

/// A message of two texts.
pub open spec fn panel_text(title: Seq<char>, detail: Seq<char>) -> PanelText {
    PanelText { title, detail: Some(detail) }
}

/// A message of two texts.
pub fn panel_message(title: &str, detail: &str) -> (message: PanelMessage)
    ensures
        message@ == panel_text(title@, detail@),
{
    PanelMessage::new(title, Some(detail))
}

/// The message in place of a diff that is too large.
pub open spec fn oversize_text(oversize_message: Seq<char>) -> PanelText {
    panel_text(
        oversize_message,
        "Open the file in another tool if you need the full patch."@,
    )
}

/// The message in place of a diff that is too large.
pub fn oversize_panel(oversize_message: &str) -> (message: PanelMessage)
    ensures
        message@ == oversize_text(oversize_message@),
{
    panel_message(
        oversize_message,
        "Open the file in another tool if you need the full patch.",
    )
}

/// How a small button that throws something away looks.
pub fn inline_destructive_button(palette: &OrcaTheme, disabled: bool) -> (look: ButtonLook)
    ensures
        look == if disabled {
            disabled_look(*palette)
        } else {
            ButtonLook {
                clickable: true,
                fill: opaque(palette.CURRENT),
                border: palette.BORDER_EMPHASIS,
                text: palette.STATUS_CORAL,
                hover_fill: Some(Tint { color: palette.STATUS_CORAL, alpha: 0x18 }),
                hover_text: Some(palette.BONE),
            }
        },
{
    if disabled {
        return disabled_button(palette);
    }
    ButtonLook {
        clickable: true,
        fill: Tint { color: palette.CURRENT, alpha: 0xFF },
        border: palette.BORDER_EMPHASIS,
        text: palette.STATUS_CORAL,
        hover_fill: Some(Tint { color: palette.STATUS_CORAL, alpha: 0x18 }),
        hover_text: Some(palette.BONE),
    }
}

/// The identity of the button that discards a hunk.
pub fn inline_hunk_discard_button(hunk_index: usize) -> (id: String)
    ensures
        id@ == "diff-discard-hunk-"@ + strings::decimal(hunk_index as nat),
{
    let mut id = "diff-discard-hunk-".to_owned();
    strings::push_decimal(&mut id, hunk_index as u64);
    id
}

/// How a radio button looks: its dot and its label.
#[derive(Clone, Copy, Debug, PartialEq, Eq, Structural)]
pub struct RadioLook {
    pub border: u32,
    pub fill: u32,
    pub text: u32,
}

/// How a radio button looks.
pub open spec fn radio_look(palette: OrcaTheme, selected: bool) -> RadioLook {
    if selected {
        RadioLook { border: palette.FOG, fill: palette.FOG, text: palette.BONE }
    } else {
        RadioLook { border: palette.SLATE, fill: palette.DEEP, text: palette.FOG }
    }
}

/// How a radio button looks.
pub fn radio_option(palette: &OrcaTheme, selected: bool) -> (look: RadioLook)
    ensures
        look == radio_look(*palette, selected),
{
    if selected {
        RadioLook { border: palette.FOG, fill: palette.FOG, text: palette.BONE }
    } else {
        RadioLook { border: palette.SLATE, fill: palette.DEEP, text: palette.FOG }
    }
}

/// A disabled button takes no clicks, of whatever kind it is, and an enabled one takes them. One that
/// throws something away is told by its colour.
pub proof fn disabled_buttons_take_no_clicks(
    palette: OrcaTheme,
    tone: ActionButtonTone,
    destructive: bool,
)
    ensures
        !disabled_look(palette).clickable,
        disabled_look(palette).hover_fill is None,
        toned_look(palette, tone).clickable,
        tone is Destructive ==> toned_look(palette, tone).text == palette.STATUS_CORAL,
        tone is Primary ==> toned_look(palette, tone).border == palette.ORCA_BLUE,
        repository_button_look(palette, true, destructive) == disabled_look(palette),
        repository_button_look(palette, false, destructive).clickable,
        repository_button_look(palette, false, true).text == palette.STATUS_CORAL,
        repository_button_look(palette, false, false).text == palette.FOG,
{
}

/// Banners tell success, warnings and errors by their colours, the same in the diff tab and in the
/// repository browser.
pub proof fn banners_agree_on_colours(palette: OrcaTheme, kind: ActionBannerKind)
    ensures
        tab_banner_look(palette, kind).text == repository_banner_look(palette, kind).text,
        tab_banner_look(palette, kind).fill == repository_banner_look(palette, kind).fill,
        kind is Success ==> tab_banner_look(palette, kind).text == palette.STATUS_GREEN,
        kind is Warning ==> tab_banner_look(palette, kind).text == palette.STATUS_AMBER,
        kind is Error ==> tab_banner_look(palette, kind).text == palette.STATUS_CORAL,
{
}

/// The states of files are told apart by their letters, the first of their names but for an
/// untracked file.
pub proof fn status_letters_are_told_apart(a: GitFileStatus, b: GitFileStatus)
    ensures
        (status_letter(a) == status_letter(b)) == (a == b),
        status_letter(GitFileStatus::Added) == 'A',
        status_letter(GitFileStatus::Modified) == 'M',
        status_letter(GitFileStatus::Deleted) == 'D',
        status_letter(GitFileStatus::Renamed) == 'R',
        status_letter(GitFileStatus::Typechange) == 'T',
        status_letter(GitFileStatus::Untracked) == '?',
        status_letter(GitFileStatus::Conflicted) == 'C',
{
}

/// Files that were added and files that were deleted have different colours wherever the theme has
/// them, those of success and of errors.
pub proof fn status_colours_tell_gain_from_loss(palette: OrcaTheme)
    ensures
        status_color(palette, GitFileStatus::Added) == palette.STATUS_GREEN,
        status_color(palette, GitFileStatus::Deleted) == palette.STATUS_CORAL,
        status_color(palette, GitFileStatus::Conflicted) == palette.STATUS_CORAL,
        status_color(palette, GitFileStatus::Modified) == palette.ORCA_BLUE,
        status_color(palette, GitFileStatus::Untracked) == palette.STATUS_AMBER,
        radio_look(palette, true).fill == palette.FOG,
        radio_look(palette, false).fill == palette.DEEP,
{
}

} // verus!
