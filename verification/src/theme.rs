//! Themes and their colours.

use crate::model::DiffLineKind;
use vstd::prelude::*;

verus! {

/// A colour theme.
#[derive(Clone, Copy, Debug, PartialEq, Eq, Structural)]
pub enum ThemeId {
    Dark,
    Light,
    Black,
    Sepia,
}

/// The colours of a theme, as red, green and blue.
#[allow(non_snake_case)]
#[derive(Clone, Copy, Debug, PartialEq, Eq, Structural)]
pub struct OrcaTheme {
    pub ABYSS: u32,
    pub DEEP: u32,
    pub CURRENT: u32,
    pub SURFACE: u32,
    pub SLATE: u32,
    pub FOG: u32,
    pub BONE: u32,
    pub PATCH: u32,
    pub ORCA_BLUE: u32,
    pub STATUS_GREEN: u32,
    pub STATUS_AMBER: u32,
    pub STATUS_CORAL: u32,
    pub SEAFOAM: u32,
    pub BORDER_DEFAULT: u32,
    pub BORDER_EMPHASIS: u32,
}

/// A colour and how opaque it is.
#[derive(Clone, Copy, Debug, PartialEq, Eq, Structural)]
pub struct Tint {
    pub color: u32,
    pub alpha: u8,
}

/// The colours of a line: its background, if it has one, its text and its line numbers.
#[derive(Clone, Copy, Debug, PartialEq, Eq, Structural)]
pub struct LineColors {
    pub background: Option<Tint>,
    pub text: u32,
    pub gutter: u32,
}

/// A line with a tinted background.
pub open spec fn tinted(color: u32, alpha: u8, text: u32, gutter: u32) -> LineColors {
    LineColors { background: Some(Tint { color, alpha }), text, gutter }
}

/// The colours of a line of the given kind.
pub open spec fn line_colors(palette: OrcaTheme, kind: DiffLineKind) -> LineColors {
    match kind {
        DiffLineKind::Addition => tinted(palette.STATUS_GREEN, 0x1F, palette.BONE, palette.FOG),
        DiffLineKind::Deletion => tinted(palette.STATUS_CORAL, 0x1F, palette.BONE, palette.FOG),
        DiffLineKind::HunkHeader => tinted(palette.ORCA_BLUE, 0x10, palette.SLATE, palette.SLATE),
        DiffLineKind::FileHeader => tinted(palette.CURRENT, 0xE0, palette.PATCH, palette.SLATE),
        DiffLineKind::BinaryNotice => tinted(palette.SEAFOAM, 0x10, palette.SEAFOAM, palette.FOG),
        DiffLineKind::ConflictMarker => tinted(
            palette.STATUS_AMBER,
            0x1A,
            palette.STATUS_AMBER,
            palette.STATUS_AMBER,
        ),
        DiffLineKind::ConflictOurs => tinted(palette.STATUS_GREEN, 0x16, palette.BONE, palette.FOG),
        DiffLineKind::ConflictBase => tinted(palette.STATUS_AMBER, 0x12, palette.BONE, palette.FOG),
        DiffLineKind::ConflictTheirs => tinted(
            palette.STATUS_CORAL,
            0x16,
            palette.BONE,
            palette.FOG,
        ),
        DiffLineKind::Context => LineColors {
            background: None,
            text: palette.BONE,
            gutter: palette.FOG,
        },
    }
}

fn tint_line(color: u32, alpha: u8, text: u32, gutter: u32) -> (colors: LineColors)
    ensures
        colors == tinted(color, alpha, text, gutter),
{
    LineColors { background: Some(Tint { color, alpha }), text, gutter }
}

/// The colours of a line of the given kind.
pub fn diff_line_colors(palette: &OrcaTheme, kind: DiffLineKind) -> (colors: LineColors)
    ensures
        colors == line_colors(*palette, kind),
{
    match kind {
        DiffLineKind::Addition => tint_line(palette.STATUS_GREEN, 0x1F, palette.BONE, palette.FOG),
        DiffLineKind::Deletion => tint_line(palette.STATUS_CORAL, 0x1F, palette.BONE, palette.FOG),
        DiffLineKind::HunkHeader => tint_line(
            palette.ORCA_BLUE,
            0x10,
            palette.SLATE,
            palette.SLATE,
        ),
        DiffLineKind::FileHeader => tint_line(palette.CURRENT, 0xE0, palette.PATCH, palette.SLATE),
        DiffLineKind::BinaryNotice => tint_line(
            palette.SEAFOAM,
            0x10,
            palette.SEAFOAM,
            palette.FOG,
        ),
        DiffLineKind::ConflictMarker => tint_line(
            palette.STATUS_AMBER,
            0x1A,
            palette.STATUS_AMBER,
            palette.STATUS_AMBER,
        ),
        DiffLineKind::ConflictOurs => tint_line(
            palette.STATUS_GREEN,
            0x16,
            palette.BONE,
            palette.FOG,
        ),
        DiffLineKind::ConflictBase => tint_line(
            palette.STATUS_AMBER,
            0x12,
            palette.BONE,
            palette.FOG,
        ),
        DiffLineKind::ConflictTheirs => tint_line(
            palette.STATUS_CORAL,
            0x16,
            palette.BONE,
            palette.FOG,
        ),
        DiffLineKind::Context => LineColors {
            background: None,
            text: palette.BONE,
            gutter: palette.FOG,
        },
    }
}

/// The background of changed stretches of a line. Only added and deleted lines have one.
pub fn inline_change_bg(palette: &OrcaTheme, kind: DiffLineKind) -> (tint: Option<Tint>)
    ensures
        tint == match kind {
            DiffLineKind::Addition => Some(Tint { color: palette.STATUS_GREEN, alpha: 0x2E }),
            DiffLineKind::Deletion => Some(Tint { color: palette.STATUS_CORAL, alpha: 0x2E }),
            _ => None,
        },
{
    match kind {
        DiffLineKind::Addition => Some(Tint { color: palette.STATUS_GREEN, alpha: 0x2E }),
        DiffLineKind::Deletion => Some(Tint { color: palette.STATUS_CORAL, alpha: 0x2E }),
        _ => None,
    }
}

/// Lines are told apart by their backgrounds: what was added and our side of a conflict are green,
/// what was deleted and the other side are coral, markers and the base are amber, and unchanged
/// lines have none.
pub proof fn lines_are_told_apart_by_colour(palette: OrcaTheme, kind: DiffLineKind)
    ensures
        ({
            let background = line_colors(palette, kind).background;
            &&& background is None == kind is Context
            &&& kind is Addition || kind is ConflictOurs ==> background->0.color
                == palette.STATUS_GREEN
            &&& kind is Deletion || kind is ConflictTheirs ==> background->0.color
                == palette.STATUS_CORAL
            &&& kind is ConflictMarker || kind is ConflictBase ==> background->0.color
                == palette.STATUS_AMBER
            &&& kind is HunkHeader ==> background->0.color == palette.ORCA_BLUE
            &&& kind is BinaryNotice ==> background->0.color == palette.SEAFOAM
        }),
{
}

} // verus!
