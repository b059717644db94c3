//! Context menus: items, their state and what a click does.

use crate::strings;
use crate::theme::OrcaTheme;
use vstd::prelude::*;
use vstd::string::*;

verus! {

/// The label of a keyboard shortcut: the symbols of macOS, or the names of keys elsewhere.
pub fn platform_shortcut(mac: &str, other: &str, is_macos: bool) -> (label: String)
    ensures
        label@ == if is_macos {
            mac@
        } else {
            other@
        },
{
    if is_macos {
        mac.to_owned()
    } else {
        other.to_owned()
    }
}

/// An item of a context menu. `A` is what choosing it does.
#[derive(Debug)]
pub struct ContextMenuItem<A> {
    pub label: String,
    pub shortcut: Option<String>,
    pub enabled: bool,
    pub action: A,
}

/// What a context menu reports.
#[derive(Clone, Copy, Debug, PartialEq, Eq, Structural)]
pub enum ContextMenuEvent {
    Dismiss,
}

/// An open context menu.
#[derive(Debug)]
pub struct ContextMenuOverlay<A> {
    pub items: Vec<ContextMenuItem<A>>,
}

impl<A> ContextMenuOverlay<A> {
    /// Opens a menu with the given items.
    pub fn new(items: Vec<ContextMenuItem<A>>) -> (menu: Self)
        ensures
            menu.items == items,
    {
        ContextMenuOverlay { items }
    }

    /// What a click on an item does: an enabled item is chosen and the menu closes; any other
    /// click on an item leaves it open.
    pub fn click_item(&self, index: usize) -> (chosen: Option<(&A, ContextMenuEvent)>)
        ensures
            match chosen {
                Some((action, event)) => index < self.items@.len() && self.items@[index as int].enabled
                    && *action == self.items@[index as int].action && event
                    == ContextMenuEvent::Dismiss,
                None => index >= self.items@.len() || !self.items@[index as int].enabled,
            },
    {
        if index < self.items.len() && self.items[index].enabled {
            Some((&self.items[index].action, ContextMenuEvent::Dismiss))
        } else {
            None
        }
    }

    /// What a click beside the menu, or the dismiss key, does.
    pub fn dismiss(&self) -> (event: ContextMenuEvent)
        ensures
            event == ContextMenuEvent::Dismiss,
    {
        ContextMenuEvent::Dismiss
    }
}

/// An item of a context menu as it is drawn. Only an enabled one takes clicks and is marked under
/// the pointer.
#[derive(Debug)]
pub struct MenuRow {
    pub label: String,
    pub text: u32,
    pub hover_fill: Option<u32>,
    pub shortcut: Option<String>,
    pub shortcut_text: u32,
    pub clickable: bool,
}

/// The row shows this item.
pub open spec fn is_menu_row<A>(row: MenuRow, palette: OrcaTheme, item: ContextMenuItem<A>) -> bool {
    &&& row.label@ == item.label@
    &&& row.text == if item.enabled {
        palette.BONE
    } else {
        palette.SLATE
    }
    &&& row.hover_fill == if item.enabled {
        Some(palette.ORCA_BLUE)
    } else {
        None
    }
    &&& strings::optional_view(row.shortcut) == strings::optional_view(item.shortcut)
    &&& row.shortcut_text == palette.SLATE
    &&& row.clickable == item.enabled
}

/// Draws a context menu.
pub fn render_context_menu<A>(palette: &OrcaTheme, menu: &ContextMenuOverlay<A>) -> (rows: Vec<
    MenuRow,
>)
    ensures
        rows@.len() == menu.items@.len(),
        forall|i: int|
            0 <= i < rows@.len() ==> is_menu_row(#[trigger] rows@[i], *palette, menu.items@[i]),
{
    let mut rows: Vec<MenuRow> = Vec::new();
    while rows.len() < menu.items.len()
        invariant
            rows@.len() <= menu.items@.len(),
            forall|i: int|
                0 <= i < rows@.len() ==> is_menu_row(#[trigger] rows@[i], *palette, menu.items@[i]),
        decreases menu.items@.len() - rows@.len(),
    {
        let item = &menu.items[rows.len()];
        rows.push(
            MenuRow {
                label: item.label.clone(),
                text: if item.enabled {
                    palette.BONE
                } else {
                    palette.SLATE
                },
                hover_fill: if item.enabled {
                    Some(palette.ORCA_BLUE)
                } else {
                    None
                },
                shortcut: match &item.shortcut {
                    Some(shortcut) => Some(shortcut.clone()),
                    None => None,
                },
                shortcut_text: palette.SLATE,
                clickable: item.enabled,
            },
        );
    }
    rows
}

/// An item takes clicks and is marked under the pointer exactly where it is enabled.
pub proof fn enabled_items_take_clicks<A>(row: MenuRow, palette: OrcaTheme, item: ContextMenuItem<A>)
    requires
        is_menu_row(row, palette, item),
    ensures
        row.clickable == item.enabled,
        row.hover_fill is Some == item.enabled,
        row.text == (if item.enabled {
            palette.BONE
        } else {
            palette.SLATE
        }),
        row.label@ == item.label@,
        row.shortcut is Some == item.shortcut is Some,
{
}

} // verus!
