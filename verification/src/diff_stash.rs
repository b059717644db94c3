//! The stashes of a diff tab.

use crate::diff_header;
use crate::diff_rows;
use crate::diff_rows::{FileHeader, FileHeaderView};
use crate::diff_state::{DiffRenderSnapshot, StashDetailDocument, StashEntrySummary};
use crate::repository_graph::Oid;
use crate::strings;
use crate::theme::{OrcaTheme, Tint};
use crate::time;
use crate::widgets;
use crate::widgets::{PanelMessage, PanelText};
use vstd::prelude::*;
use vstd::string::*;

verus! {

/// The part of a stash message that tells one stash from another: without the branch that git puts
/// in front of it.
pub open spec fn cleaned_message(message: Seq<char>) -> Seq<char> {
    let trimmed = strings::trimmed(message);
    let colon = strings::index_of_char(trimmed, ':');
    let prefix = trimmed.take(colon);
    if colon < trimmed.len() && ("WIP on "@.is_prefix_of(prefix) || "On "@.is_prefix_of(prefix)) {
        strings::trimmed(trimmed.skip(colon + 1))
    } else {
        trimmed
    }
}

/// The place of the first colon.
fn find_colon(text: &str) -> (index: Option<usize>)
    ensures
        match index {
            Some(index) => index < text@.len() && index == strings::index_of_char(text@, ':'),
            None => strings::index_of_char(text@, ':') == text@.len(),
        },
{
    proof {
        strings::lemma_index_of_char(text@, ':');
    }
    let chars = strings::collect_chars(text);
    let mut i: usize = 0;
    while i < chars.len()
        invariant
            i <= chars@.len(),
            chars@ == text@,
            i <= strings::index_of_char(text@, ':') <= text@.len(),
            strings::index_of_char(text@, ':') < text@.len() ==> text@[strings::index_of_char(
                text@,
                ':',
            )] == ':',
            forall|k: int| 0 <= k < strings::index_of_char(text@, ':') ==> text@[k] != ':',
        decreases chars@.len() - i,
    {
        if chars[i] == ':' {
            return Some(i);
        }
        i = i + 1;
    }
    None
}

/// The title of a stash: its message without the branch that git puts in front, or its label where
/// nothing of the message is left.
pub fn stash_display_title(message: &str, label: &str) -> (title: String)
    ensures
        title@ == if cleaned_message(message@).len() > 0 {
            cleaned_message(message@)
        } else {
            label@
        },
{
    let trimmed = strings::trim(message);
    let len = trimmed.unicode_len();
    let mut cleaned: &str = trimmed;
    if let Some(colon) = find_colon(trimmed) {
        let prefix = trimmed.substring_char(0, colon);
        assert(prefix@ =~= trimmed@.take(colon as int));
        if strings::starts_with(prefix, "WIP on ") || strings::starts_with(prefix, "On ") {
            let rest = trimmed.substring_char(colon + 1, len);
            assert(rest@ =~= trimmed@.skip(colon + 1));
            cleaned = strings::trim(rest);
        }
    }
    if cleaned.is_empty() {
        label.to_owned()
    } else {
        cleaned.to_owned()
    }
}

/// An entry of the pane of stashes. A stash is named by its place in the list.
#[derive(Clone, Copy, Debug, PartialEq, Eq, Structural)]
pub enum StashTreeEntry {
    /// The heading of the list.
    Heading,
    /// A stash.
    Stash { index: usize },
    /// The files of an open stash.
    Files { index: usize },
    /// The files of an open stash are loading.
    LoadingFiles { index: usize },
    /// The files of an open stash could not be loaded.
    FilesError { index: usize },
    /// What went wrong with the list.
    ListError,
}

/// The pane of stashes. The buttons stand above it in any case.
#[derive(Debug)]
pub enum StashTreePane {
    Message(PanelMessage),
    Entries(Vec<StashTreeEntry>),
}

/// What the pane of stashes shows.
pub enum StashTreePaneView {
    Message(PanelText),
    Entries(Seq<StashTreeEntry>),
}

impl View for StashTreePane {
    type V = StashTreePaneView;

    open spec fn view(&self) -> StashTreePaneView {
        match self {
            StashTreePane::Message(message) => StashTreePaneView::Message(message@),
            StashTreePane::Entries(entries) => StashTreePaneView::Entries(entries@),
        }
    }
}

/// What stands below a stash: for an open one its files, or that they are loading, or why there
/// are none.
pub open spec fn below_stash(snap: DiffRenderSnapshot, oid: Oid, index: int) -> Seq<
    StashTreeEntry,
> {
    let stash = snap.tab.stash;
    if stash.expanded_stash != Some(oid) {
        Seq::empty()
    } else if stash.detail.document is Some && stash.detail.document->0.stash_oid == oid {
        seq![StashTreeEntry::Files { index: index as usize }]
    } else if stash.selected_stash != Some(oid) {
        Seq::empty()
    } else if stash.detail.loading {
        seq![StashTreeEntry::LoadingFiles { index: index as usize }]
    } else if stash.detail.error is Some {
        seq![StashTreeEntry::FilesError { index: index as usize }]
    } else {
        Seq::empty()
    }
}

/// The first stashes with what stands below them.
pub open spec fn stash_list(snap: DiffRenderSnapshot, count: int) -> Seq<StashTreeEntry>
    decreases count,
{
    if count <= 0 {
        Seq::empty()
    } else {
        stash_list(snap, count - 1).push(StashTreeEntry::Stash { index: (count - 1) as usize })
            + below_stash(
            snap,
            diff_header::stash_entries(snap)[count - 1].stash_oid,
            count - 1,
        )
    }
}

/// What the pane of stashes shows.
pub open spec fn stash_tree_pane(snap: DiffRenderSnapshot) -> StashTreePaneView {
    let entries = diff_header::stash_entries(snap);
    let list = snap.tab.stash.list;
    if entries.len() == 0 && list.loading {
        StashTreePaneView::Message(
            widgets::panel_text(
                "Loading stashes..."@,
                "Git is collecting stash entries for this scope."@,
            ),
        )
    } else if entries.len() == 0 && list.error is Some {
        StashTreePaneView::Message(
            widgets::panel_text("Could not load stashes"@, list.error->0@),
        )
    } else if entries.len() == 0 {
        StashTreePaneView::Message(
            widgets::panel_text(
                "No stashes"@,
                "Create a stash from the header to browse it here."@,
            ),
        )
    } else {
        StashTreePaneView::Entries(
            seq![StashTreeEntry::Heading] + stash_list(snap, entries.len() as int) + (
            if list.error is Some {
                seq![StashTreeEntry::ListError]
            } else {
                Seq::empty()
            }),
        )
    }
}

fn same_oid(a: Option<Oid>, b: Oid) -> (same: bool)
    ensures
        same == (a == Some(b)),
{
    match a {
        Some(a) => a == b,
        None => false,
    }
}

fn push_below_stash(
    snap: &DiffRenderSnapshot,
    oid: Oid,
    index: usize,
    entries: &mut Vec<StashTreeEntry>,
)
    ensures
        final(entries)@ == old(entries)@ + below_stash(*snap, oid, index as int),
{
    let ghost before = entries@;
    let stash = &snap.tab.stash;
    if same_oid(stash.expanded_stash, oid) {
        let has_files = match &stash.detail.document {
            Some(detail) => detail.stash_oid == oid,
            None => false,
        };
        if has_files {
            entries.push(StashTreeEntry::Files { index });
        } else if same_oid(stash.selected_stash, oid) {
            if stash.detail.loading {
                entries.push(StashTreeEntry::LoadingFiles { index });
            } else if stash.detail.error.is_some() {
                entries.push(StashTreeEntry::FilesError { index });
            }
        }
    }
    assert(entries@ =~= before + below_stash(*snap, oid, index as int));
}

/// The pane of stashes: each stash, and below an open one its files.
pub fn render_stash_tree_pane(snap: &DiffRenderSnapshot) -> (pane: StashTreePane)
    ensures
        pane@ == stash_tree_pane(*snap),
{
    let list = &snap.tab.stash.list;
    if let Some(stashes) = &list.document {
        if stashes.len() > 0 {
            let mut entries: Vec<StashTreeEntry> = Vec::new();
            entries.push(StashTreeEntry::Heading);
            let ghost heading = entries@;
            let mut i: usize = 0;
            assert(entries@ =~= heading + stash_list(*snap, 0));
            while i < stashes.len()
                invariant
                    i <= stashes@.len(),
                    diff_header::stash_entries(*snap) == stashes@,
                    entries@ == heading + stash_list(*snap, i as int),
                decreases stashes@.len() - i,
            {
                entries.push(StashTreeEntry::Stash { index: i });
                push_below_stash(snap, stashes[i].stash_oid, i, &mut entries);
                assert(entries@ =~= heading + stash_list(*snap, i + 1));
                i = i + 1;
            }
            if list.error.is_some() {
                entries.push(StashTreeEntry::ListError);
            }
            assert(entries@ =~= stash_tree_pane(*snap)->Entries_0);
            return StashTreePane::Entries(entries);
        }
    }
    if list.loading {
        return StashTreePane::Message(
            widgets::panel_message(
                "Loading stashes...",
                "Git is collecting stash entries for this scope.",
            ),
        );
    }
    StashTreePane::Message(
        match &list.error {
            Some(error) => widgets::panel_message("Could not load stashes", error.as_str()),
            None => widgets::panel_message(
                "No stashes",
                "Create a stash from the header to browse it here.",
            ),
        },
    )
}

/// The row of a stash.
#[derive(Debug)]
pub struct StashRow {
    pub title: String,
    pub age: String,
    pub label: String,
    pub note: Option<String>,
    pub fill: Option<Tint>,
    pub border: u32,
    pub hover_fill: Option<Tint>,
    pub text: u32,
}

/// The row of a stash: an arrow that shows whether it is open, its title, how old it is, its label,
/// and whether it holds untracked files. The selected one stands out.
pub fn render_stash_row(
    palette: &OrcaTheme,
    snap: &DiffRenderSnapshot,
    entry: &StashEntrySummary,
    now_unix: i64,
) -> (row: StashRow)
    requires
        i64::MIN <= now_unix - entry.committed_at_unix <= i64::MAX,
    ensures
        ({
            let is_selected = snap.tab.stash.selected_stash == Some(entry.stash_oid);
            let is_expanded = snap.tab.stash.expanded_stash == Some(entry.stash_oid);
            let cleaned = cleaned_message(entry.message@);
            &&& row.title@ == (if is_expanded {
                "\u{25BE} "@
            } else {
                "\u{25B8} "@
            }) + (if cleaned.len() > 0 {
                cleaned
            } else {
                entry.label@
            })
            &&& row.age@ == time::age_text(now_unix - entry.committed_at_unix)
            &&& row.label@ == entry.label@
            &&& strings::optional_view(row.note) == if entry.includes_untracked {
                Some("includes untracked"@)
            } else {
                None
            }
            &&& row.fill == if is_selected {
                Some(Tint { color: palette.ORCA_BLUE, alpha: 0x16 })
            } else {
                None
            }
            &&& row.border == if is_selected {
                palette.ORCA_BLUE
            } else {
                palette.DEEP
            }
            &&& row.hover_fill == if is_selected {
                None
            } else {
                Some(Tint { color: palette.CURRENT, alpha: 0x80 })
            }
            &&& row.text == if is_selected {
                palette.PATCH
            } else {
                palette.BONE
            }
        }),
{
    let is_selected = same_oid(snap.tab.stash.selected_stash, entry.stash_oid);
    let is_expanded = same_oid(snap.tab.stash.expanded_stash, entry.stash_oid);
    let title = stash_display_title(entry.message.as_str(), entry.label.as_str());
    let arrow: &str = if is_expanded {
        "\u{25BE} "
    } else {
        "\u{25B8} "
    };
    StashRow {
        title: strings::concat_text(arrow, title.as_str()),
        age: time::format_relative_time_from(now_unix, entry.committed_at_unix),
        label: entry.label.clone(),
        note: if entry.includes_untracked {
            Some("includes untracked".to_owned())
        } else {
            None
        },
        fill: if is_selected {
            Some(Tint { color: palette.ORCA_BLUE, alpha: 0x16 })
        } else {
            None
        },
        border: if is_selected {
            palette.ORCA_BLUE
        } else {
            palette.DEEP
        },
        hover_fill: if is_selected {
            None
        } else {
            Some(Tint { color: palette.CURRENT, alpha: 0x80 })
        },
        text: if is_selected {
            palette.PATCH
        } else {
            palette.BONE
        },
    }
}

/// The pane of the selected stash.
#[derive(Debug)]
pub enum StashDiffPane {
    Message(PanelMessage),
    /// The diff of the selected file is too large.
    Oversize { header: FileHeader, message: PanelMessage },
    /// The lines of the selected file's diff.
    Lines { header: FileHeader },
    /// What the stash holds.
    Summary { title: String, message: String, contents: Option<String> },
}

/// What the pane of the selected stash shows.
pub enum StashDiffPaneView {
    Message(PanelText),
    Oversize { header: FileHeaderView, message: PanelText },
    Lines { header: FileHeaderView },
    Summary { title: Seq<char>, message: Seq<char>, contents: Option<Seq<char>> },
}

impl View for StashDiffPane {
    type V = StashDiffPaneView;

    open spec fn view(&self) -> StashDiffPaneView {
        match *self {
            StashDiffPane::Message(message) => StashDiffPaneView::Message(message@),
            StashDiffPane::Oversize { header, message } => StashDiffPaneView::Oversize {
                header: header@,
                message: message@,
            },
            StashDiffPane::Lines { header } => StashDiffPaneView::Lines { header: header@ },
            StashDiffPane::Summary { title, message, contents } => StashDiffPaneView::Summary {
                title: title@,
                message: message@,
                contents: strings::optional_view(contents),
            },
        }
    }
}

/// How many files a stash holds, and whether some are untracked.
pub open spec fn stash_contents(detail: StashDetailDocument) -> Seq<char> {
    strings::decimal(detail.files@.len()) + " file"@ + (if detail.files@.len() == 1 {
        ""@
    } else {
        "s"@
    }) + (if detail.includes_untracked {
        ", includes untracked files"@
    } else {
        ""@
    })
}

/// What the pane shows of a stash of which no file is selected.
pub open spec fn stash_summary(snap: DiffRenderSnapshot, oid: Oid) -> StashDiffPaneView {
    let entries = diff_header::stash_entries(snap);
    let entry = diff_header::stash_with_oid(entries, oid);
    let detail = snap.tab.stash.detail.document;
    let loaded = detail is Some && detail->0.stash_oid == oid;
    StashDiffPaneView::Summary {
        title: match entry {
            Some(index) => entries[index].label@,
            None => "stash"@,
        },
        message: if loaded {
            detail->0.message@
        } else {
            match entry {
                Some(index) => entries[index].message@,
                None => "No stash detail available."@,
            }
        },
        contents: if loaded {
            Some(stash_contents(detail->0))
        } else {
            None
        },
    }
}

/// What the pane of the selected stash shows. The kept lines say whether they are of a diff that
/// is too large.
pub open spec fn stash_diff_pane(
    snap: DiffRenderSnapshot,
    kept_oversize: Option<bool>,
    oversize_message: Seq<char>,
) -> StashDiffPaneView {
    let stash = snap.tab.stash;
    let empty = diff_header::stash_entries(snap).len() == 0;
    let pick = StashDiffPaneView::Message(
        widgets::panel_text("Select a file"@, "Pick a file from the selected stash."@),
    );
    if empty && stash.list.loading {
        StashDiffPaneView::Message(
            widgets::panel_text("Loading stashes..."@, "The stash list is still loading."@),
        )
    } else if empty {
        StashDiffPaneView::Message(
            widgets::panel_text(
                "No stashes"@,
                "Create a stash from the diff header to preview it here."@,
            ),
        )
    } else if stash.selected_stash is None {
        StashDiffPaneView::Message(
            widgets::panel_text("Select a stash"@, "Pick a stash from the left pane."@),
        )
    } else if stash.selected_file is Some {
        if stash.file_diff.document is None && stash.file_diff.loading {
            StashDiffPaneView::Message(
                widgets::panel_text(
                    "Loading stash file..."@,
                    "The selected stash file patch is still hydrating."@,
                ),
            )
        } else if stash.file_diff.document is None && stash.file_diff.error is Some {
            StashDiffPaneView::Message(
                widgets::panel_text("Could not load stash file"@, stash.file_diff.error->0@),
            )
        } else if stash.file_diff.document is None {
            pick
        } else {
            let header = diff_rows::file_header(
                stash.file_diff.document->0.file,
                strings::optional_view(stash.file_diff.error),
            );
            match kept_oversize {
                None => pick,
                Some(true) => StashDiffPaneView::Oversize {
                    header,
                    message: widgets::oversize_text(oversize_message),
                },
                Some(false) => StashDiffPaneView::Lines { header },
            }
        }
    } else if stash.detail.document is None && stash.detail.loading {
        StashDiffPaneView::Message(
            widgets::panel_text(
                "Loading stash..."@,
                "The selected stash summary is still hydrating."@,
            ),
        )
    } else if stash.detail.document is None && stash.detail.error is Some {
        StashDiffPaneView::Message(
            widgets::panel_text("Could not load stash"@, stash.detail.error->0@),
        )
    } else {
        stash_summary(snap, stash.selected_stash->0)
    }
}

fn describe_contents(detail: &StashDetailDocument) -> (text: String)
    ensures
        text@ == stash_contents(*detail),
{
    let mut text = strings::format_decimal(detail.files.len() as u64);
    text.append(" file");
    text.append(
        if detail.files.len() == 1 {
            ""
        } else {
            "s"
        },
    );
    text.append(
        if detail.includes_untracked {
            ", includes untracked files"
        } else {
            ""
        },
    );
    text
}

fn summarize_stash(snap: &DiffRenderSnapshot, oid: Oid) -> (pane: StashDiffPane)
    ensures
        pane@ == stash_summary(*snap, oid),
{
    let (label, message) = match &snap.tab.stash.list.document {
        Some(entries) => match diff_header::find_stash(entries, oid) {
            Some(index) => (entries[index].label.clone(), entries[index].message.clone()),
            None => ("stash".to_owned(), "No stash detail available.".to_owned()),
        },
        None => ("stash".to_owned(), "No stash detail available.".to_owned()),
    };
    if let Some(detail) = &snap.tab.stash.detail.document {
        if detail.stash_oid == oid {
            return StashDiffPane::Summary {
                title: label,
                message: detail.message.clone(),
                contents: Some(describe_contents(detail)),
            };
        }
    }
    StashDiffPane::Summary { title: label, message, contents: None }
}

fn render_stash_file(
    snap: &DiffRenderSnapshot,
    kept_oversize: Option<bool>,
    oversize_message: &str,
) -> (pane: StashDiffPane)
    requires
        diff_header::stash_entries(*snap).len() > 0,
        snap.tab.stash.selected_stash is Some,
        snap.tab.stash.selected_file is Some,
    ensures
        pane@ == stash_diff_pane(*snap, kept_oversize, oversize_message@),
{
    let file_diff = &snap.tab.stash.file_diff;
    match (&file_diff.document, kept_oversize) {
        (None, _) => {
            if file_diff.loading {
                return StashDiffPane::Message(
                    widgets::panel_message(
                        "Loading stash file...",
                        "The selected stash file patch is still hydrating.",
                    ),
                );
            }
            if let Some(error) = &file_diff.error {
                return StashDiffPane::Message(
                    widgets::panel_message("Could not load stash file", error.as_str()),
                );
            }
        },
        (Some(document), Some(is_oversize)) => {
            let header = match &file_diff.error {
                Some(error) => diff_rows::diff_file_header(&document.file, Some(error.as_str())),
                None => diff_rows::diff_file_header(&document.file, None),
            };
            return if is_oversize {
                StashDiffPane::Oversize {
                    header,
                    message: widgets::oversize_panel(oversize_message),
                }
            } else {
                StashDiffPane::Lines { header }
            };
        },
        (Some(_), None) => {},
    }
    StashDiffPane::Message(
        widgets::panel_message("Select a file", "Pick a file from the selected stash."),
    )
}

/// The pane of the selected stash: the diff of its selected file, or else what it holds.
pub fn render_stash_diff_pane(
    snap: &DiffRenderSnapshot,
    kept_oversize: Option<bool>,
    oversize_message: &str,
) -> (pane: StashDiffPane)
    ensures
        pane@ == stash_diff_pane(*snap, kept_oversize, oversize_message@),
{
    let stash = &snap.tab.stash;
    let empty = match &stash.list.document {
        Some(entries) => entries.len() == 0,
        None => true,
    };
    if empty {
        return StashDiffPane::Message(
            if stash.list.loading {
                widgets::panel_message("Loading stashes...", "The stash list is still loading.")
            } else {
                widgets::panel_message(
                    "No stashes",
                    "Create a stash from the diff header to preview it here.",
                )
            },
        );
    }
    let oid = match stash.selected_stash {
        Some(oid) => oid,
        None => {
            return StashDiffPane::Message(
                widgets::panel_message("Select a stash", "Pick a stash from the left pane."),
            );
        },
    };
    if stash.selected_file.is_some() {
        return render_stash_file(snap, kept_oversize, oversize_message);
    }
    if stash.detail.document.is_none() {
        if stash.detail.loading {
            return StashDiffPane::Message(
                widgets::panel_message(
                    "Loading stash...",
                    "The selected stash summary is still hydrating.",
                ),
            );
        }
        if let Some(error) = &stash.detail.error {
            return StashDiffPane::Message(
                widgets::panel_message("Could not load stash", error.as_str()),
            );
        }
    }
    summarize_stash(snap, oid)
}

/// What git puts in front of a stash message, the branch and a colon, is no part of what tells
/// stashes apart: what is left is what was typed behind it, without the white space around it.
pub proof fn branch_in_front_is_left_out(branch: Seq<char>, message: Seq<char>, wip: bool)
    requires
        !branch.contains(':'),
        message.len() > 0,
        !strings::is_space(message.last()),
    ensures
        ({
            let front = if wip {
                "WIP on "@
            } else {
                "On "@
            };
            cleaned_message(front + branch + ":"@ + message) == strings::trimmed(message)
        }),
{
    reveal_strlit("WIP on ");
    reveal_strlit("On ");
    reveal_strlit(":");
    let front = if wip {
        "WIP on "@
    } else {
        "On "@
    };
    let whole = front + branch + ":"@ + message;
    assert(whole[0] == front[0]);
    assert(!strings::is_space(whole[0]));
    assert(whole.last() == message.last());
    let cut = strings::trimming_cuts_only_white_space(whole);
    assert(cut.0 == 0) by {
        if cut.0 > 0 {
            assert(strings::is_space(whole[0]));
        }
    }
    assert(cut.1 == whole.len()) by {
        if cut.1 < whole.len() {
            assert(strings::is_space(whole[whole.len() - 1]));
        }
    }
    assert(whole.subrange(0, whole.len() as int) =~= whole);
    let colon = strings::index_of_char(whole, ':');
    let at = front.len() + branch.len();
    strings::lemma_index_of_char(whole, ':');
    assert(whole[at as int] == ':');
    assert(forall|i: int| 0 <= i < branch.len() ==> branch[i] != ':');
    assert forall|i: int| 0 <= i < at implies whole[i] != ':' by {
        if i >= front.len() {
            assert(whole[i] == branch[i - front.len()]);
        } else {
            assert(whole[i] == front[i]);
        }
    }
    assert(colon == at);
    assert(whole.take(colon) =~= front + branch);
    assert(front.is_prefix_of(front + branch)) by {
        assert((front + branch).take(front.len() as int) =~= front);
    }
    assert(whole.skip(colon + 1) =~= message);
}

/// A message without a colon is told as it is, without the white space around it.
pub proof fn plain_message_is_kept(message: Seq<char>)
    requires
        !message.contains(':'),
    ensures
        cleaned_message(message) == strings::trimmed(message),
{
    let trimmed = strings::trimmed(message);
    let cut = strings::trimming_cuts_only_white_space(message);
    strings::lemma_index_of_char(trimmed, ':');
    let colon = strings::index_of_char(trimmed, ':');
    if colon < trimmed.len() {
        assert(message[cut.0 + colon] == ':');
    }
}

proof fn lemma_stash_listed(snap: DiffRenderSnapshot, count: int, index: int) -> (at: int)
    requires
        0 <= index < count,
    ensures
        0 <= at < stash_list(snap, count).len(),
        stash_list(snap, count)[at] == (StashTreeEntry::Stash { index: index as usize }),
        ({
            let below = below_stash(
                snap,
                diff_header::stash_entries(snap)[index].stash_oid,
                index,
            );
            &&& at + below.len() < stash_list(snap, count).len()
            &&& below.len() == 1 ==> stash_list(snap, count)[at + 1] == below[0]
        }),
    decreases count,
{
    let rest = stash_list(snap, count - 1);
    let all = stash_list(snap, count);
    if index == count - 1 {
        rest.len() as int
    } else {
        let at = lemma_stash_listed(snap, count - 1, index);
        assert(all[at] == rest[at]);
        if at + 1 < rest.len() {
            assert(all[at + 1] == rest[at + 1]);
        }
        at
    }
}

/// Every stash is listed, and right below an open one are its files once they are loaded.
pub proof fn every_stash_is_listed(snap: DiffRenderSnapshot, index: int) -> (at: int)
    requires
        0 <= index < diff_header::stash_entries(snap).len() <= usize::MAX,
    ensures
        stash_tree_pane(snap) is Entries,
        ({
            let entries = stash_tree_pane(snap)->Entries_0;
            let oid = diff_header::stash_entries(snap)[index].stash_oid;
            let stash = snap.tab.stash;
            &&& entries[0] is Heading
            &&& 0 < at < entries.len()
            &&& entries[at] == (StashTreeEntry::Stash { index: index as usize })
            &&& stash.expanded_stash == Some(oid) && stash.detail.document is Some
                && stash.detail.document->0.stash_oid == oid ==> entries[at + 1] == (
            StashTreeEntry::Files { index: index as usize })
            &&& stash.expanded_stash == Some(oid) && stash.detail.document is None
                && stash.selected_stash == Some(oid) && stash.detail.loading ==> entries[at + 1]
                == (StashTreeEntry::LoadingFiles { index: index as usize })
        }),
{
    let count = diff_header::stash_entries(snap).len() as int;
    let at = lemma_stash_listed(snap, count, index);
    let entries = stash_tree_pane(snap)->Entries_0;
    let list = stash_list(snap, count);
    assert(entries[at + 1] == list[at]);
    let below = below_stash(snap, diff_header::stash_entries(snap)[index].stash_oid, index);
    if below.len() == 1 {
        assert(entries[at + 2] == list[at + 1]);
    }
    at + 1
}

/// A stash that is not open has nothing below it.
pub proof fn closed_stash_shows_no_files(snap: DiffRenderSnapshot, oid: Oid, index: int)
    requires
        snap.tab.stash.expanded_stash != Some(oid),
    ensures
        below_stash(snap, oid, index).len() == 0,
{
}

/// The summary of a stash is told by its own label, and once it is loaded by its own message and by
/// how many files it holds.
pub proof fn summary_is_that_of_the_stash(snap: DiffRenderSnapshot, index: int)
    requires
        0 <= index < diff_header::stash_entries(snap).len(),
        forall|i: int|
            0 <= i < diff_header::stash_entries(snap).len() && i != index ==> (
            #[trigger] diff_header::stash_entries(snap)[i]).stash_oid
                != diff_header::stash_entries(snap)[index].stash_oid,
    ensures
        ({
            let entry = diff_header::stash_entries(snap)[index];
            let detail = snap.tab.stash.detail.document;
            &&& stash_summary(snap, entry.stash_oid) is Summary
            &&& stash_summary(snap, entry.stash_oid)->title == entry.label@
            &&& detail is None ==> stash_summary(snap, entry.stash_oid)->Summary_message
                == entry.message@
            &&& detail is Some && detail->0.stash_oid == entry.stash_oid ==> stash_summary(
                snap,
                entry.stash_oid,
            )->Summary_message == detail->0.message@
        }),
{
    diff_header::object_name_finds_its_stash(
        diff_header::stash_entries(snap),
        diff_header::stash_entries(snap)[index].stash_oid,
    );
}

/// One file is told in the singular and any other number in the plural.
pub proof fn one_file_is_no_plural(detail: StashDetailDocument)
    requires
        !detail.includes_untracked,
    ensures
        detail.files@.len() == 1 ==> stash_contents(detail) == strings::decimal(1) + " file"@,
        detail.files@.len() != 1 ==> stash_contents(detail) == strings::decimal(
            detail.files@.len(),
        ) + " files"@,
{
    reveal_strlit("");
    reveal_strlit("s");
    reveal_strlit(" file");
    reveal_strlit(" files");
    assert(" file"@ + "s"@ =~= " files"@);
    assert(stash_contents(detail) =~= strings::decimal(detail.files@.len()) + (" file"@ + (
    if detail.files@.len() == 1 {
        ""@
    } else {
        "s"@
    })));
    assert(" file"@ + ""@ =~= " file"@);
}

} // verus!
