//! The rows of the trees of changed files.

use crate::context_menu::ContextMenuItem;
use crate::diff_state::DiffRenderSnapshot;
use crate::keys::Modifiers;
use crate::model;
use crate::model::{
    ChangedFile, ChangedFileView, DiffSectionKind, DiffSelectionKey, DiffSelectionKeyView,
};
use crate::repository_graph::Oid;
use crate::strings;
use crate::text;
use crate::theme::{OrcaTheme, Tint};
use crate::tree;
use crate::tree::{DiffTreeNode, DiffTreeNodeKind, NodeView};
use vstd::prelude::*;
use vstd::string::*;

verus! {

/// A row of a tree: a directory, or a file.
#[derive(Debug)]
pub struct TreeRow {
    pub name: String,
    pub depth: usize,
    pub file: Option<ChangedFile>,
}

/// What a row of a tree shows.
pub struct TreeRowView {
    pub name: Seq<char>,
    pub depth: usize,
    pub file: Option<ChangedFileView>,
}

impl View for TreeRow {
    type V = TreeRowView;

    open spec fn view(&self) -> TreeRowView {
        TreeRowView {
            name: self.name@,
            depth: self.depth,
            file: match self.file {
                Some(file) => Some(file@),
                None => None,
            },
        }
    }
}

/// What a list of rows shows.
pub open spec fn row_views(rows: Seq<TreeRow>) -> Seq<TreeRowView> {
    rows.map_values(|row: TreeRow| row@)
}

/// One level deeper, as far as a depth can be counted.
pub open spec fn deeper(depth: usize) -> usize {
    if depth < usize::MAX {
        (depth + 1) as usize
    } else {
        depth
    }
}

/// The rows of a list of nodes, from top to bottom: each directory stands above what lies in it,
/// which is one level deeper.
pub open spec fn tree_rows(nodes: Seq<NodeView>, depth: usize) -> Seq<TreeRowView>
    decreases nodes,
{
    if nodes.len() == 0 {
        Seq::empty()
    } else {
        let node = nodes[nodes.len() - 1];
        tree_rows(nodes.drop_last(), depth).push(
            TreeRowView { name: node.name, depth, file: node.file },
        ) + match node.file {
            None => tree_rows(node.children, deeper(depth)),
            Some(file) => Seq::empty(),
        }
    }
}

/// Appends the rows of a list of nodes.
pub fn push_tree_rows(nodes: &Vec<DiffTreeNode>, depth: usize, rows: &mut Vec<TreeRow>)
    ensures
        row_views(final(rows)@) == row_views(old(rows)@) + tree_rows(
            tree::tree_view(nodes@),
            depth,
        ),
    decreases nodes,
{
    let ghost before = row_views(rows@);
    let ghost all = tree::tree_view(nodes@);
    proof {
        tree::lemma_tree_view_index(nodes@);
        assert(all.take(0) =~= Seq::<NodeView>::empty());
        assert(row_views(rows@) =~= before + tree_rows(all.take(0), depth));
    }
    let mut i: usize = 0;
    while i < nodes.len()
        invariant
            i <= nodes@.len(),
            all == tree::tree_view(nodes@),
            all.len() == nodes@.len(),
            forall|k: int|
                0 <= k < nodes@.len() ==> #[trigger] tree::tree_view(nodes@)[k]
                    == tree::node_view(nodes@[k]),
            row_views(rows@) == before + tree_rows(all.take(i as int), depth),
        decreases nodes@.len() - i,
    {
        let node = &nodes[i];
        let ghost current = row_views(rows@);
        proof {
            let longer = all.take(i + 1);
            assert(longer.drop_last() =~= all.take(i as int));
            assert(longer[longer.len() - 1] == tree::node_view(*node));
        }
        match &node.kind {
            DiffTreeNodeKind::Directory => {
                let row = TreeRow { name: node.name.clone(), depth, file: None };
                rows.push(row);
                assert(row_views(rows@) =~= current.push(row@));
                push_tree_rows(&node.children, depth.saturating_add(1), rows);
            },
            DiffTreeNodeKind::File(file) => {
                let row = TreeRow { name: node.name.clone(), depth, file: Some(file.clone()) };
                rows.push(row);
                assert(row_views(rows@) =~= current.push(row@));
            },
        }
        assert(row_views(rows@) =~= before + tree_rows(all.take(i + 1), depth));
        i = i + 1;
    }
    assert(all.take(i as int) =~= all);
}

/// The rows of a tree.
pub fn render_tree_rows(nodes: &Vec<DiffTreeNode>, depth: usize) -> (rows: Vec<TreeRow>)
    ensures
        row_views(rows@) == tree_rows(tree::tree_view(nodes@), depth),
{
    let mut rows: Vec<TreeRow> = Vec::new();
    assert(row_views(rows@) =~= Seq::empty());
    push_tree_rows(nodes, depth, &mut rows);
    rows
}

/// The keys of the rows that are files, from top to bottom.
pub open spec fn row_keys(rows: Seq<TreeRowView>, section: DiffSectionKind) -> Seq<
    DiffSelectionKeyView,
>
    decreases rows.len(),
{
    if rows.len() == 0 {
        Seq::empty()
    } else {
        let keys = row_keys(rows.drop_last(), section);
        match rows.last().file {
            Some(file) => keys.push(
                DiffSelectionKeyView { section, relative_path: file.relative_path },
            ),
            None => keys,
        }
    }
}

proof fn lemma_row_keys_add(a: Seq<TreeRowView>, b: Seq<TreeRowView>, section: DiffSectionKind)
    ensures
        row_keys(a + b, section) == row_keys(a, section) + row_keys(b, section),
    decreases b.len(),
{
    if b.len() == 0 {
        assert(a + b =~= a);
        assert(row_keys(a, section) + row_keys(b, section) =~= row_keys(a, section));
    } else {
        assert((a + b).drop_last() =~= a + b.drop_last());
        lemma_row_keys_add(a, b.drop_last(), section);
        assert(row_keys(a + b, section) =~= row_keys(a, section) + row_keys(b, section));
    }
}

/// The files of a tree stand in its rows in the order in which a range of files is selected.
pub proof fn rows_follow_visible_order(
    nodes: Seq<NodeView>,
    depth: usize,
    section: DiffSectionKind,
)
    ensures
        row_keys(tree_rows(nodes, depth), section) == tree::file_keys(nodes, section),
    decreases nodes,
{
    if nodes.len() > 0 {
        let node = nodes[nodes.len() - 1];
        rows_follow_visible_order(nodes.drop_last(), depth, section);
        let above = tree_rows(nodes.drop_last(), depth);
        let row = TreeRowView { name: node.name, depth, file: node.file };
        assert(above.push(row).drop_last() =~= above);
        let below = match node.file {
            None => tree_rows(node.children, deeper(depth)),
            Some(file) => Seq::empty(),
        };
        lemma_row_keys_add(above.push(row), below, section);
        if node.file is None {
            rows_follow_visible_order(node.children, deeper(depth), section);
        } else {
            assert(row_keys(below, section) =~= Seq::empty());
        }
        assert(row_keys(tree_rows(nodes, depth), section) =~= tree::file_keys(nodes, section));
    }
}

/// What a directory's row says.
pub fn directory_row_text(name: &str) -> (text: String)
    ensures
        text@ == "\u{25BE} "@ + name@,
{
    strings::concat_text("\u{25BE} ", name)
}

/// How a file's row stands to the selection.
#[derive(Clone, Copy, Debug, PartialEq, Eq, Structural)]
pub struct RowMarks {
    pub is_primary: bool,
    pub is_multi: bool,
}

/// One of the keys is this one.
pub open spec fn contains_key(keys: Seq<DiffSelectionKey>, key: DiffSelectionKeyView) -> bool {
    tree::key_views(keys).contains(key)
}

/// Whether one of the keys is this one.
pub fn key_listed(keys: &Vec<DiffSelectionKey>, key: &DiffSelectionKey) -> (listed: bool)
    ensures
        listed == contains_key(keys@, key@),
{
    let mut i: usize = 0;
    while i < keys.len()
        invariant
            i <= keys@.len(),
            forall|k: int| 0 <= k < i ==> tree::key_views(keys@)[k] != key@,
        decreases keys@.len() - i,
    {
        if keys[i].same_key(key) {
            assert(tree::key_views(keys@)[i as int] == key@);
            return true;
        }
        i = i + 1;
    }
    false
}

/// How the row of a changed file stands to the selection: whether its diff is shown, and whether
/// it is one of the selected files.
pub fn section_row_marks(snap: &DiffRenderSnapshot, key: &DiffSelectionKey) -> (marks: RowMarks)
    ensures
        marks.is_primary == (snap.tab.selected_file is Some && snap.tab.selected_file->0@ == key@),
        marks.is_multi == contains_key(snap.tab.multi_select@, key@),
{
    RowMarks {
        is_primary: match &snap.tab.selected_file {
            Some(selected) => selected.same_key(key),
            None => false,
        },
        is_multi: key_listed(&snap.tab.multi_select, key),
    }
}

/// How the row of a stash's file stands to the selection.
pub fn stash_row_marks(snap: &DiffRenderSnapshot, stash_oid: Oid, file: &ChangedFile) -> (marks:
    RowMarks)
    ensures
        marks.is_primary == (snap.tab.stash.selected_file is Some
            && snap.tab.stash.selected_file->0@ == (stash_oid, file.relative_path@)),
        !marks.is_multi,
{
    RowMarks {
        is_primary: match &snap.tab.stash.selected_file {
            Some(selected) => selected.stash_oid == stash_oid && selected.relative_path.same_path(
                &file.relative_path,
            ),
            None => false,
        },
        is_multi: false,
    }
}

/// How a file's row looks.
#[derive(Clone, Copy, Debug, PartialEq, Eq, Structural)]
pub struct FileRowLook {
    pub fill: Option<Tint>,
    pub border: Tint,
    pub hover_fill: Option<Tint>,
    pub text: u32,
}

/// How a file's row looks: the file whose diff is shown stands out most, and of the others the
/// selected ones do.
pub fn file_tree_row(palette: &OrcaTheme, marks: RowMarks) -> (look: FileRowLook)
    ensures
        look == if marks.is_primary {
            FileRowLook {
                fill: Some(Tint { color: palette.ORCA_BLUE, alpha: 0x1A }),
                border: Tint { color: palette.ORCA_BLUE, alpha: 0x66 },
                hover_fill: None,
                text: palette.PATCH,
            }
        } else if marks.is_multi {
            FileRowLook {
                fill: Some(Tint { color: palette.ORCA_BLUE, alpha: 0x12 }),
                border: Tint { color: palette.ORCA_BLUE, alpha: 0x60 },
                hover_fill: None,
                text: palette.BONE,
            }
        } else {
            FileRowLook {
                fill: None,
                border: Tint { color: 0, alpha: 0 },
                hover_fill: Some(Tint { color: palette.CURRENT, alpha: 0x88 }),
                text: palette.BONE,
            }
        },
{
    if marks.is_primary {
        FileRowLook {
            fill: Some(Tint { color: palette.ORCA_BLUE, alpha: 0x1A }),
            border: Tint { color: palette.ORCA_BLUE, alpha: 0x66 },
            hover_fill: None,
            text: palette.PATCH,
        }
    } else if marks.is_multi {
        FileRowLook {
            fill: Some(Tint { color: palette.ORCA_BLUE, alpha: 0x12 }),
            border: Tint { color: palette.ORCA_BLUE, alpha: 0x60 },
            hover_fill: None,
            text: palette.BONE,
        }
    } else {
        FileRowLook {
            fill: None,
            border: Tint { color: 0, alpha: 0 },
            hover_fill: Some(Tint { color: palette.CURRENT, alpha: 0x88 }),
            text: palette.BONE,
        }
    }
}

/// The counts of a changed file: inserted lines, deleted lines, and a note where it is binary.
#[derive(Debug)]
pub struct ChangeCounts {
    pub inserted: String,
    pub deleted: String,
    pub binary_note: Option<String>,
}

/// The counts say this.
pub open spec fn counts_say(counts: ChangeCounts, file: ChangedFile, note: Seq<char>) -> bool {
    &&& counts.inserted@ == "+"@ + strings::decimal(file.insertions as nat)
    &&& counts.deleted@ == "-"@ + strings::decimal(file.deletions as nat)
    &&& strings::optional_view(counts.binary_note) == if file.is_binary {
        Some(note)
    } else {
        None
    }
}

fn count_changes(file: &ChangedFile, note: &str) -> (counts: ChangeCounts)
    ensures
        counts_say(counts, *file, note@),
{
    let mut inserted = "+".to_owned();
    strings::push_decimal(&mut inserted, file.insertions as u64);
    let mut deleted = "-".to_owned();
    strings::push_decimal(&mut deleted, file.deletions as u64);
    ChangeCounts {
        inserted,
        deleted,
        binary_note: if file.is_binary {
            Some(note.to_owned())
        } else {
            None
        },
    }
}

/// The counts in a file's row.
pub fn file_row_counts(file: &ChangedFile) -> (counts: ChangeCounts)
    ensures
        counts_say(counts, *file, "bin"@),
{
    count_changes(file, "bin")
}

/// The counts in the header of a file's diff.
pub fn status_summary(file: &ChangedFile) -> (counts: ChangeCounts)
    ensures
        counts_say(counts, *file, "binary"@),
{
    count_changes(file, "binary")
}

/// The name of a section.
pub open spec fn section_name(section: DiffSectionKind) -> Seq<char> {
    match section {
        DiffSectionKind::Conflicted => "Conflicted"@,
        DiffSectionKind::Staged => "Staged"@,
        DiffSectionKind::Unstaged => "Unstaged"@,
    }
}

/// The identity of a file's row: the section, the repository and the path.
pub fn section_row_id(section: DiffSectionKind, scope_root: &str, path: &str) -> (id: String)
    ensures
        id@ == "diff-"@ + section_name(section) + "-"@ + strings::decimal(
            text::hash_prefix(text::bytes_of(scope_root@), text::bytes_of(scope_root@).len() as int)
                as nat,
        ) + "-"@ + strings::decimal(
            text::hash_prefix(text::bytes_of(path@), text::bytes_of(path@).len() as int) as nat,
        ),
{
    let mut id = "diff-".to_owned();
    id.append(
        match section {
            DiffSectionKind::Conflicted => "Conflicted",
            DiffSectionKind::Staged => "Staged",
            DiffSectionKind::Unstaged => "Unstaged",
        },
    );
    id.append("-");
    strings::push_decimal(&mut id, text::simple_hash(scope_root));
    id.append("-");
    strings::push_decimal(&mut id, text::simple_hash(path));
    id
}

/// What a click on a file's row does.
#[derive(Clone, Copy, Debug, PartialEq, Eq, Structural)]
pub enum RowClick {
    /// Puts the file into the selection, or takes it out.
    Toggle,
    /// Selects from the last selected file up to this one.
    Range,
    /// Selects this file alone and shows its diff.
    Replace,
}

/// What a click on a file's row does.
pub fn row_click(modifiers: &Modifiers) -> (click: RowClick)
    ensures
        click == if modifiers.platform {
            RowClick::Toggle
        } else if modifiers.shift {
            RowClick::Range
        } else {
            RowClick::Replace
        },
{
    if modifiers.platform {
        RowClick::Toggle
    } else if modifiers.shift {
        RowClick::Range
    } else {
        RowClick::Replace
    }
}

/// What the menu of a file's row offers.
#[derive(Clone, Copy, Debug, PartialEq, Eq, Structural)]
pub enum RowMenuAction {
    MarkResolved,
    Unstage,
    Stage,
}

/// What the menu of a file's row says.
pub open spec fn menu_text(section: DiffSectionKind) -> Seq<char> {
    match section {
        DiffSectionKind::Conflicted => "Mark Resolved"@,
        DiffSectionKind::Staged => "Unstage"@,
        DiffSectionKind::Unstaged => "Stage"@,
    }
}

/// The menu of a file's row: a conflicted file can be marked as resolved where all conflicts are,
/// and the others can be unstaged or staged while nothing is under way and the state of the
/// repository is supported.
pub fn row_menu_items(
    snap: &DiffRenderSnapshot,
    section: DiffSectionKind,
    can_mark_resolved: bool,
) -> (items: Vec<ContextMenuItem<RowMenuAction>>)
    ensures
        items@.len() == 1,
        items@[0].label@ == menu_text(section),
        items@[0].shortcut is None,
        items@[0].enabled == match section {
            DiffSectionKind::Conflicted => can_mark_resolved,
            _ => !snap.in_flight() && !snap.unsupported(),
        },
        items@[0].action == match section {
            DiffSectionKind::Conflicted => RowMenuAction::MarkResolved,
            DiffSectionKind::Staged => RowMenuAction::Unstage,
            DiffSectionKind::Unstaged => RowMenuAction::Stage,
        },
{
    let free = !snap.any_action_in_flight() && !snap.unsupported_repo_state();
    let mut items: Vec<ContextMenuItem<RowMenuAction>> = Vec::new();
    match section {
        DiffSectionKind::Conflicted => {
            items.push(
                ContextMenuItem {
                    label: "Mark Resolved".to_owned(),
                    shortcut: None,
                    enabled: can_mark_resolved,
                    action: RowMenuAction::MarkResolved,
                },
            );
        },
        DiffSectionKind::Staged => {
            items.push(
                ContextMenuItem {
                    label: "Unstage".to_owned(),
                    shortcut: None,
                    enabled: free,
                    action: RowMenuAction::Unstage,
                },
            );
        },
        DiffSectionKind::Unstaged => {
            items.push(
                ContextMenuItem {
                    label: "Stage".to_owned(),
                    shortcut: None,
                    enabled: free,
                    action: RowMenuAction::Stage,
                },
            );
        },
    }
    items
}

/// Whether a right click on a file's row first selects that file alone: it does where the file is
/// not among the selected ones.
pub fn menu_replaces_selection(snap: &DiffRenderSnapshot, key: &DiffSelectionKey) -> (replaces:
    bool)
    ensures
        replaces == !contains_key(snap.tab.multi_select@, key@),
{
    !key_listed(&snap.tab.multi_select, key)
}

/// The header above the diff of a file.
#[derive(Debug)]
pub struct FileHeader {
    pub path: String,
    pub counts: ChangeCounts,
    pub error: Option<String>,
}

/// What the header above the diff of a file says.
pub struct FileHeaderView {
    pub path: Seq<char>,
    pub inserted: Seq<char>,
    pub deleted: Seq<char>,
    pub binary_note: Option<Seq<char>>,
    pub error: Option<Seq<char>>,
}

impl View for FileHeader {
    type V = FileHeaderView;

    open spec fn view(&self) -> FileHeaderView {
        FileHeaderView {
            path: self.path@,
            inserted: self.counts.inserted@,
            deleted: self.counts.deleted@,
            binary_note: strings::optional_view(self.counts.binary_note),
            error: strings::optional_view(self.error),
        }
    }
}

/// The header above the diff of a file: its path and its counts, and what went wrong.
pub open spec fn file_header(file: ChangedFile, error: Option<Seq<char>>) -> FileHeaderView {
    FileHeaderView {
        path: model::path_text(file.relative_path@),
        inserted: "+"@ + strings::decimal(file.insertions as nat),
        deleted: "-"@ + strings::decimal(file.deletions as nat),
        binary_note: if file.is_binary {
            Some("binary"@)
        } else {
            None
        },
        error,
    }
}

/// The header above the diff of a file.
pub fn diff_file_header(file: &ChangedFile, error: Option<&str>) -> (header: FileHeader)
    ensures
        header@ == file_header(
            *file,
            match error {
                Some(error) => Some(error@),
                None => None,
            },
        ),
{
    FileHeader {
        path: file.relative_path.display(),
        counts: status_summary(file),
        error: match error {
            Some(error) => Some(error.to_owned()),
            None => None,
        },
    }
}

/// The rows of two lists of nodes follow each other. A directory is one row, with what lies in it
/// below it and one level deeper, and a file is one row.
pub proof fn rows_nest_below_their_directory(
    a: Seq<NodeView>,
    b: Seq<NodeView>,
    node: NodeView,
    depth: usize,
)
    requires
        depth < usize::MAX,
    ensures
        tree_rows(a + b, depth) == tree_rows(a, depth) + tree_rows(b, depth),
        node.file is None ==> tree_rows(seq![node], depth) == seq![
            TreeRowView { name: node.name, depth, file: None },
        ] + tree_rows(node.children, (depth + 1) as usize),
        node.file is Some ==> tree_rows(seq![node], depth) == seq![
            TreeRowView { name: node.name, depth, file: node.file },
        ],
{
    lemma_rows_add(a, b, depth);
    reveal_with_fuel(tree_rows, 2);
    assert(seq![node].drop_last() =~= Seq::<NodeView>::empty());
    assert(tree_rows(Seq::<NodeView>::empty(), depth) =~= Seq::<TreeRowView>::empty());
    let row = TreeRowView { name: node.name, depth, file: node.file };
    if node.file is None {
        assert(tree_rows(seq![node], depth) =~= seq![row] + tree_rows(
            node.children,
            (depth + 1) as usize,
        ));
    } else {
        assert(tree_rows(seq![node], depth) =~= seq![row]);
    }
}

proof fn lemma_rows_add(a: Seq<NodeView>, b: Seq<NodeView>, depth: usize)
    ensures
        tree_rows(a + b, depth) == tree_rows(a, depth) + tree_rows(b, depth),
    decreases b.len(),
{
    if b.len() == 0 {
        assert(a + b =~= a);
        assert(tree_rows(a, depth) + tree_rows(b, depth) =~= tree_rows(a, depth));
    } else {
        assert((a + b).drop_last() =~= a + b.drop_last());
        lemma_rows_add(a, b.drop_last(), depth);
        assert(tree_rows(a + b, depth) =~= tree_rows(a, depth) + tree_rows(b, depth));
    }
}

/// The counts of a file tell its inserted lines behind a plus sign and its deleted ones behind a
/// minus sign, in its row and in the header above its diff, and whether it is binary.
pub proof fn counts_tell_insertions_and_deletions(
    counts: ChangeCounts,
    file: ChangedFile,
    note: Seq<char>,
    error: Option<Seq<char>>,
)
    requires
        counts_say(counts, file, note),
    ensures
        counts.inserted@[0] == '+',
        strings::number_of(counts.inserted@.skip(1)) == file.insertions,
        counts.deleted@[0] == '-',
        strings::number_of(counts.deleted@.skip(1)) == file.deletions,
        counts.binary_note is Some == file.is_binary,
        file_header(file, error).inserted == counts.inserted@,
        file_header(file, error).deleted == counts.deleted@,
        file_header(file, error).binary_note is Some == file.is_binary,
        file_header(file, error).path == model::path_text(file.relative_path@),
        file_header(file, error).error == error,
{
    reveal_strlit("+");
    reveal_strlit("-");
    strings::decimal_notation_reads_back(file.insertions as nat);
    strings::decimal_notation_reads_back(file.deletions as nat);
    assert(counts.inserted@.skip(1) =~= strings::decimal(file.insertions as nat));
    assert(counts.deleted@.skip(1) =~= strings::decimal(file.deletions as nat));
}

/// Sections are told apart by their names, and by what the menu of a file in them offers.
pub proof fn sections_are_told_apart(a: DiffSectionKind, b: DiffSectionKind)
    ensures
        (section_name(a) == section_name(b)) == (a == b),
        (menu_text(a) == menu_text(b)) == (a == b),
        a is Staged ==> menu_text(a) == "Unstage"@ && section_name(a) == "Staged"@,
        a is Unstaged ==> menu_text(a) == "Stage"@ && section_name(a) == "Unstaged"@,
{
    reveal_strlit("Conflicted");
    reveal_strlit("Staged");
    reveal_strlit("Unstaged");
    reveal_strlit("Mark Resolved");
    reveal_strlit("Unstage");
    reveal_strlit("Stage");
    assert(section_name(a).len() == section_name(b).len() ==> a == b);
    assert(menu_text(a).len() == menu_text(b).len() ==> a == b);
}

/// One of the keys is listed exactly where one of them names the same section and path.
pub proof fn listed_keys_are_found(keys: Seq<DiffSelectionKey>, key: DiffSelectionKeyView)
    ensures
        contains_key(keys, key) == exists|i: int|
            0 <= i < keys.len() && (#[trigger] keys[i])@ == key,
{
    if contains_key(keys, key) {
        let i = choose|i: int|
            0 <= i < tree::key_views(keys).len() && tree::key_views(keys)[i] == key;
        assert(keys[i]@ == key);
    }
    if exists|i: int| 0 <= i < keys.len() && (#[trigger] keys[i])@ == key {
        let i = choose|i: int| 0 <= i < keys.len() && (#[trigger] keys[i])@ == key;
        assert(tree::key_views(keys)[i] == key);
    }
}

} // verus!
