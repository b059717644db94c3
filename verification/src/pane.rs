//! The panes of a project: containers for the nodes of its layout.

use crate::context_menu;
use crate::context_menu::ContextMenuItem;
use crate::strings;
use vstd::prelude::*;
use vstd::string::*;

verus! {

/// Which way a split lays out its children.
#[derive(Clone, Copy, Debug, PartialEq, Eq, Structural)]
pub enum SplitDirection {
    Horizontal,
    Vertical,
}

/// What a node of a layout is. Of its children only their number matters here.
#[derive(Debug)]
pub enum LayoutNode {
    Terminal { terminal_id: Option<String> },
    Split { direction: SplitDirection, child_count: usize },
    Tabs { child_count: usize, active_tab: usize },
}

/// The container of a node of a layout. It keeps the containers of its children, by their paths,
/// for as long as the children are there.
#[derive(Debug)]
pub struct LayoutContainer {
    pub layout_path: Vec<usize>,
    pub child_containers: Vec<Vec<usize>>,
}

/// The paths of containers.
pub open spec fn path_views(paths: Seq<Vec<usize>>) -> Seq<Seq<usize>> {
    paths.map_values(|path: Vec<usize>| path@)
}

/// The path is that of one of the children of a node.
pub open spec fn is_child_path(base: Seq<usize>, child_count: nat, path: Seq<usize>) -> bool {
    path.len() == base.len() + 1 && path.take(base.len() as int) == base && path.last()
        < child_count
}

fn same_path(a: &Vec<usize>, b: &Vec<usize>) -> (same: bool)
    ensures
        same == (a@ == b@),
{
    if a.len() != b.len() {
        return false;
    }
    let mut i: usize = 0;
    while i < a.len()
        invariant
            a@.len() == b@.len(),
            i <= a@.len(),
            forall|k: int| 0 <= k < i ==> a@[k] == b@[k],
        decreases a@.len() - i,
    {
        if a[i] != b[i] {
            return false;
        }
        i = i + 1;
    }
    assert(a@ =~= b@);
    true
}

fn copy_path(path: &Vec<usize>) -> (copy: Vec<usize>)
    ensures
        copy@ == path@,
{
    let mut copy: Vec<usize> = Vec::new();
    while copy.len() < path.len()
        invariant
            copy@.len() <= path@.len(),
            copy@ == path@.take(copy@.len() as int),
        decreases path@.len() - copy@.len(),
    {
        copy.push(path[copy.len()]);
        assert(copy@ =~= path@.take(copy@.len() as int));
    }
    assert(copy@ =~= path@);
    copy
}

proof fn lemma_push_contains(paths: Seq<Seq<usize>>, pushed: Seq<usize>, path: Seq<usize>)
    ensures
        paths.push(pushed).contains(path) == (paths.contains(path) || path == pushed),
{
    let all = paths.push(pushed);
    if paths.contains(path) {
        let i = choose|i: int| 0 <= i < paths.len() && paths[i] == path;
        assert(all[i] == path);
    }
    if path == pushed {
        assert(all[paths.len() as int] == path);
    }
}

proof fn lemma_filter_contains(paths: Seq<Seq<usize>>, keep: spec_fn(Seq<usize>) -> bool)
    ensures
        forall|path: Seq<usize>| #[trigger]
            paths.filter(keep).contains(path) == (paths.contains(path) && keep(path)),
    decreases paths.len(),
{
    reveal(Seq::filter);
    if paths.len() > 0 {
        let rest = paths.drop_last();
        lemma_filter_contains(rest, keep);
        assert(paths =~= rest.push(paths.last()));
        assert forall|path: Seq<usize>| #[trigger]
            paths.filter(keep).contains(path) == (paths.contains(path) && keep(path)) by {
            lemma_push_contains(rest, paths.last(), path);
            lemma_push_contains(rest.filter(keep), paths.last(), path);
        }
    }
}

/// Dropping paths leaves distinct ones distinct.
proof fn lemma_filter_distinct(paths: Seq<Seq<usize>>, keep: spec_fn(Seq<usize>) -> bool)
    requires
        paths.no_duplicates(),
    ensures
        paths.filter(keep).no_duplicates(),
    decreases paths.len(),
{
    reveal(Seq::filter);
    if paths.len() > 0 {
        let rest = paths.drop_last();
        lemma_filter_distinct(rest, keep);
        lemma_filter_contains(rest, keep);
        if keep(paths.last()) {
            assert(!rest.contains(paths.last()));
            lemma_push_distinct(rest.filter(keep), paths.last());
        }
    }
}

/// A path that is not there yet leaves distinct ones distinct.
proof fn lemma_push_distinct(paths: Seq<Seq<usize>>, pushed: Seq<usize>)
    requires
        paths.no_duplicates(),
        !paths.contains(pushed),
    ensures
        paths.push(pushed).no_duplicates(),
{
    let all = paths.push(pushed);
    assert forall|i: int, j: int| 0 <= i < all.len() && 0 <= j < all.len() && i != j implies all[i]
        != all[j] by {
        if i < paths.len() {
            assert(paths.contains(paths[i]));
        }
        if j < paths.len() {
            assert(paths.contains(paths[j]));
        }
    }
}

fn leads_to_child(base: &Vec<usize>, child_count: usize, path: &Vec<usize>) -> (leads: bool)
    ensures
        leads == is_child_path(base@, child_count as nat, path@),
{
    if path.len() == 0 || path.len() - 1 != base.len() {
        return false;
    }
    let mut i: usize = 0;
    while i < base.len()
        invariant
            path@.len() == base@.len() + 1,
            i <= base@.len(),
            forall|k: int| 0 <= k < i ==> base@[k] == path@[k],
        decreases base@.len() - i,
    {
        if base[i] != path[i] {
            assert(path@.take(base@.len() as int)[i as int] != base@[i as int]);
            return false;
        }
        i = i + 1;
    }
    assert(path@.take(base@.len() as int) =~= base@);
    path[base.len()] < child_count
}

/// What a container draws.
#[derive(Debug)]
pub enum PaneView {
    /// The view of a terminal.
    Terminal { terminal_id: String },
    /// A text in place of a terminal that has no view yet.
    Starting,
    /// The children of a split, with a divider between each two. Those of a horizontal split stand
    /// below each other.
    Split { below_each_other: bool, elements: Vec<SplitElement> },
    /// One tab.
    Tab { index: usize },
    /// A text in place of a layout.
    NoLayout,
}

/// A part of a split.
#[derive(Clone, Copy, Debug, PartialEq, Eq, Structural)]
pub enum SplitElement {
    Child { index: usize },
    Divider { left: usize, right: usize },
}

/// The parts of a split: its children, with a divider between each two.
pub open spec fn split_elements(child_count: nat) -> Seq<SplitElement>
    decreases child_count,
{
    if child_count == 0 {
        Seq::empty()
    } else if child_count == 1 {
        seq![SplitElement::Child { index: 0 }]
    } else {
        split_elements((child_count - 1) as nat).push(
            SplitElement::Divider {
                left: (child_count - 2) as usize,
                right: (child_count - 1) as usize,
            },
        ).push(SplitElement::Child { index: (child_count - 1) as usize })
    }
}

/// The parts of a split.
pub fn render_split(child_count: usize) -> (elements: Vec<SplitElement>)
    ensures
        elements@ == split_elements(child_count as nat),
{
    let mut elements: Vec<SplitElement> = Vec::new();
    let mut i: usize = 0;
    while i < child_count
        invariant
            i <= child_count,
            elements@ == split_elements(i as nat),
        decreases child_count - i,
    {
        if i > 0 {
            elements.push(SplitElement::Divider { left: i - 1, right: i });
        }
        elements.push(SplitElement::Child { index: i });
        i = i + 1;
        assert(elements@ =~= split_elements(i as nat));
    }
    elements
}

/// A split has a divider less than it has children: every child is drawn, in order, at the even
/// places, and the divider before it stands between its neighbour and it.
pub proof fn split_alternates(child_count: nat, index: int)
    requires
        0 <= index < child_count <= usize::MAX,
    ensures
        split_elements(child_count).len() == 2 * child_count - 1,
        split_elements(child_count)[2 * index] == (SplitElement::Child { index: index as usize }),
        index > 0 ==> split_elements(child_count)[2 * index - 1] == (SplitElement::Divider {
            left: (index - 1) as usize,
            right: index as usize,
        }),
    decreases child_count,
{
    if child_count > 1 {
        if index < child_count - 1 {
            split_alternates((child_count - 1) as nat, index);
        } else {
            split_alternates((child_count - 1) as nat, 0);
        }
    }
}

/// How many children a node has.
pub open spec fn child_count_of(node: Option<&LayoutNode>) -> nat {
    match node {
        Some(LayoutNode::Split { child_count, .. }) => *child_count as nat,
        Some(LayoutNode::Tabs { child_count, .. }) => *child_count as nat,
        _ => 0,
    }
}

/// The tab that is shown: the active one, or the last one where there is none of that number.
pub open spec fn shown_tab(child_count: nat, active_tab: usize) -> usize {
    if active_tab < child_count || child_count == 0 && active_tab == 0 {
        active_tab
    } else if child_count == 0 {
        0
    } else {
        (child_count - 1) as usize
    }
}

/// The path is that of a child with a number in a range.
pub open spec fn is_range_path(base: Seq<usize>, from: int, to: int, path: Seq<usize>) -> bool {
    path.len() == base.len() + 1 && path.take(base.len() as int) == base && from <= path.last() < to
}

/// The path is that of a child that is drawn: each child of a split, and one tab.
pub open spec fn is_drawn_path(base: Seq<usize>, node: Option<&LayoutNode>, path: Seq<usize>) -> bool {
    match node {
        Some(LayoutNode::Split { child_count, .. }) => is_range_path(
            base,
            0,
            *child_count as int,
            path,
        ),
        Some(LayoutNode::Tabs { child_count, active_tab }) => {
            let shown = shown_tab(*child_count as nat, *active_tab) as int;
            is_range_path(base, shown, shown + 1, path)
        },
        _ => false,
    }
}

/// The view is what the node looks like.
pub open spec fn is_view(view: PaneView, node: Option<&LayoutNode>, has_view: bool) -> bool {
    match node {
        None => view is NoLayout,
        Some(LayoutNode::Terminal { terminal_id }) => match *terminal_id {
            Some(id) if has_view => view matches PaneView::Terminal { terminal_id } && terminal_id@
                == id@,
            _ => view is Starting,
        },
        Some(LayoutNode::Split { direction, child_count }) => view matches PaneView::Split {
            below_each_other,
            elements,
        } && below_each_other == (direction == SplitDirection::Horizontal) && elements@
            == split_elements(*child_count as nat),
        Some(LayoutNode::Tabs { child_count, active_tab }) => view matches PaneView::Tab { index }
            && index == shown_tab(*child_count as nat, *active_tab),
    }
}

impl LayoutContainer {
    /// No child has two containers.
    pub open spec fn children_distinct(self) -> bool {
        path_views(self.child_containers@).no_duplicates()
    }

    /// A container for the node at a path.
    pub fn new(layout_path: Vec<usize>) -> (container: Self)
        ensures
            container.layout_path == layout_path,
            container.child_containers@.len() == 0,
            container.children_distinct(),
    {
        LayoutContainer { layout_path, child_containers: Vec::new() }
    }

    /// Makes the container one for the node at another path. The containers of its children are
    /// then dropped, for their paths no longer hold.
    pub fn set_layout_path(&mut self, path: Vec<usize>)
        ensures
            final(self).layout_path@ == path@,
            path_views(final(self).child_containers@) == if path@ == old(self).layout_path@ {
                path_views(old(self).child_containers@)
            } else {
                Seq::empty()
            },
            old(self).children_distinct() ==> final(self).children_distinct(),
    {
        if !same_path(&self.layout_path, &path) {
            self.layout_path = path;
            self.child_containers.clear();
            assert(path_views(self.child_containers@) =~= Seq::<Seq<usize>>::empty());
        }
    }

    /// Makes sure that there is a container for a child, and says whether it had to be made.
    pub fn ensure_child_container(&mut self, child_path: Vec<usize>) -> (made: bool)
        ensures
            final(self).layout_path == old(self).layout_path,
            made == !path_views(old(self).child_containers@).contains(child_path@),
            path_views(final(self).child_containers@) == if made {
                path_views(old(self).child_containers@).push(child_path@)
            } else {
                path_views(old(self).child_containers@)
            },
            old(self).children_distinct() ==> final(self).children_distinct(),
    {
        let ghost paths = path_views(self.child_containers@);
        let mut i: usize = 0;
        while i < self.child_containers.len()
            invariant
                i <= self.child_containers@.len(),
                *self == *old(self),
                paths == path_views(self.child_containers@),
                forall|k: int| 0 <= k < i ==> paths[k] != child_path@,
            decreases self.child_containers@.len() - i,
        {
            if same_path(&self.child_containers[i], &child_path) {
                assert(paths[i as int] == child_path@);
                return false;
            }
            i = i + 1;
        }
        self.child_containers.push(child_path);
        assert(path_views(self.child_containers@) =~= paths.push(child_path@));
        proof {
            if paths.no_duplicates() {
                lemma_push_distinct(paths, child_path@);
            }
        }
        true
    }

    /// Drops the containers of children that are no longer in the layout.
    pub fn retain_valid_children(&mut self, child_count: usize)
        ensures
            final(self).layout_path == old(self).layout_path,
            path_views(final(self).child_containers@) == path_views(
                old(self).child_containers@,
            ).filter(
                |path: Seq<usize>|
                    is_child_path(old(self).layout_path@, child_count as nat, path),
            ),
            old(self).children_distinct() ==> final(self).children_distinct(),
    {
        let ghost all = path_views(self.child_containers@);
        let ghost base = self.layout_path@;
        let ghost valid = |path: Seq<usize>| is_child_path(base, child_count as nat, path);
        let mut kept: Vec<Vec<usize>> = Vec::new();
        let mut i: usize = 0;
        proof {
            reveal(Seq::filter);
        }
        assert(path_views(kept@) =~= all.take(0).filter(valid));
        while i < self.child_containers.len()
            invariant
                i <= self.child_containers@.len(),
                *self == *old(self),
                base == self.layout_path@,
                all == path_views(self.child_containers@),
                valid == (|path: Seq<usize>| is_child_path(base, child_count as nat, path)),
                path_views(kept@) == all.take(i as int).filter(valid),
            decreases self.child_containers@.len() - i,
        {
            let keeps = leads_to_child(&self.layout_path, child_count, &self.child_containers[i]);
            proof {
                all.take(i as int).lemma_filter_push(all[i as int], valid);
                assert(all.take(i + 1) =~= all.take(i as int).push(all[i as int]));
            }
            if keeps {
                let ghost before = path_views(kept@);
                let path = copy_path(&self.child_containers[i]);
                kept.push(path);
                assert(path_views(kept@) =~= before.push(path@));
            }
            i = i + 1;
        }
        assert(all.take(i as int) =~= all);
        proof {
            if all.no_duplicates() {
                lemma_filter_distinct(all, valid);
            }
        }
        self.child_containers = kept;
    }

    /// Makes sure that there are containers for the children in a range.
    fn ensure_children(&mut self, from: usize, to: usize)
        requires
            from <= to,
        ensures
            final(self).layout_path == old(self).layout_path,
            forall|path: Seq<usize>| #[trigger]
                path_views(final(self).child_containers@).contains(path) == (path_views(
                    old(self).child_containers@,
                ).contains(path) || is_range_path(
                    old(self).layout_path@,
                    from as int,
                    to as int,
                    path,
                )),
            old(self).children_distinct() ==> final(self).children_distinct(),
    {
        let mut i: usize = from;
        while i < to
            invariant
                from <= i <= to,
                self.layout_path == old(self).layout_path,
                forall|path: Seq<usize>| #[trigger]
                    path_views(self.child_containers@).contains(path) == (path_views(
                        old(self).child_containers@,
                    ).contains(path) || is_range_path(
                        old(self).layout_path@,
                        from as int,
                        i as int,
                        path,
                    )),
                old(self).children_distinct() ==> self.children_distinct(),
            decreases to - i,
        {
            let ghost before = path_views(self.child_containers@);
            let mut path = copy_path(&self.layout_path);
            path.push(i);
            let ghost child = path@;
            self.ensure_child_container(path);
            proof {
                let after = path_views(self.child_containers@);
                let base = old(self).layout_path@;
                assert(child =~= base.push(i));
                assert(child.take(base.len() as int) =~= base);
                assert forall|path: Seq<usize>| #[trigger] after.contains(path) == (path_views(
                    old(self).child_containers@,
                ).contains(path) || is_range_path(base, from as int, i + 1, path)) by {
                    lemma_push_contains(before, child, path);
                    if is_range_path(base, from as int, i + 1, path) && path.last() == i {
                        assert(path =~= child);
                    }
                }
            }
            i = i + 1;
        }
    }

    /// Draws the node. The containers of children that are gone are dropped, and those of the
    /// children that are drawn are made where they are missing.
    pub fn render(&mut self, node: Option<&LayoutNode>, has_view: bool) -> (view: PaneView)
        ensures
            is_view(view, node, has_view),
            final(self).layout_path == old(self).layout_path,
            forall|path: Seq<usize>| #[trigger]
                path_views(final(self).child_containers@).contains(path) == ((path_views(
                    old(self).child_containers@,
                ).contains(path) && is_child_path(
                    old(self).layout_path@,
                    child_count_of(node),
                    path,
                )) || is_drawn_path(old(self).layout_path@, node, path)),
            old(self).children_distinct() ==> final(self).children_distinct(),
    {
        match node {
            None => {
                self.child_containers.clear();
                PaneView::NoLayout
            },
            Some(LayoutNode::Terminal { terminal_id }) => {
                self.child_containers.clear();
                match terminal_id {
                    Some(id) => if has_view {
                        PaneView::Terminal { terminal_id: id.clone() }
                    } else {
                        PaneView::Starting
                    },
                    None => PaneView::Starting,
                }
            },
            Some(LayoutNode::Split { direction, child_count }) => {
                let ghost before = path_views(self.child_containers@);
                self.retain_valid_children(*child_count);
                proof {
                    lemma_filter_contains(
                        before,
                        |path: Seq<usize>|
                            is_child_path(old(self).layout_path@, *child_count as nat, path),
                    );
                }
                self.ensure_children(0, *child_count);
                PaneView::Split {
                    below_each_other: *direction == SplitDirection::Horizontal,
                    elements: render_split(*child_count),
                }
            },
            Some(LayoutNode::Tabs { child_count, active_tab }) => {
                let ghost before = path_views(self.child_containers@);
                self.retain_valid_children(*child_count);
                proof {
                    lemma_filter_contains(
                        before,
                        |path: Seq<usize>|
                            is_child_path(old(self).layout_path@, *child_count as nat, path),
                    );
                }
                let index: usize = if *child_count == 0 {
                    0
                } else if *active_tab < *child_count {
                    *active_tab
                } else {
                    *child_count - 1
                };
                self.ensure_children(index, index + 1);
                PaneView::Tab { index }
            },
        }
    }
}

/// What an item of a pane's menu does.
#[derive(Clone, Copy, Debug, PartialEq, Eq, Structural)]
pub enum PaneAction {
    SplitFocused(SplitDirection),
    NewTab,
    ClosePane,
}

/// An item of a pane's menu: its label and its shortcuts on macOS and elsewhere.
pub open spec fn pane_menu() -> Seq<(Seq<char>, Seq<char>, Seq<char>, PaneAction)> {
    seq![
        (
            "Split Right"@,
            "\u{2318}D"@,
            "Ctrl+Shift+D"@,
            PaneAction::SplitFocused(SplitDirection::Vertical),
        ),
        (
            "Split Down"@,
            "\u{2318}\u{21E7}D"@,
            "Ctrl+Shift+E"@,
            PaneAction::SplitFocused(SplitDirection::Horizontal),
        ),
        ("New Tab"@, "\u{2318}T"@, "Ctrl+Shift+T"@, PaneAction::NewTab),
        ("Close Pane"@, "\u{2318}W"@, "Ctrl+Shift+W"@, PaneAction::ClosePane),
    ]
}

/// The item is this one of a pane's menu.
pub open spec fn is_pane_item(
    item: ContextMenuItem<PaneAction>,
    spec: (Seq<char>, Seq<char>, Seq<char>, PaneAction),
    is_macos: bool,
) -> bool {
    &&& item.label@ == spec.0
    &&& item.shortcut is Some
    &&& item.shortcut->0@ == if is_macos {
        spec.1
    } else {
        spec.2
    }
    &&& item.enabled
    &&& item.action == spec.3
}

fn pane_item(label: &str, mac: &str, other: &str, is_macos: bool, action: PaneAction) -> (item:
    ContextMenuItem<PaneAction>)
    ensures
        is_pane_item(item, (label@, mac@, other@, action), is_macos),
{
    ContextMenuItem {
        label: label.to_owned(),
        shortcut: Some(context_menu::platform_shortcut(mac, other, is_macos)),
        enabled: true,
        action,
    }
}

/// The menu of a pane.
pub fn pane_menu_items(is_macos: bool) -> (items: Vec<ContextMenuItem<PaneAction>>)
    ensures
        items@.len() == pane_menu().len(),
        forall|i: int|
            0 <= i < items@.len() ==> is_pane_item(#[trigger] items@[i], pane_menu()[i], is_macos),
{
    let mut items: Vec<ContextMenuItem<PaneAction>> = Vec::new();
    items.push(
        pane_item(
            "Split Right",
            "\u{2318}D",
            "Ctrl+Shift+D",
            is_macos,
            PaneAction::SplitFocused(SplitDirection::Vertical),
        ),
    );
    items.push(
        pane_item(
            "Split Down",
            "\u{2318}\u{21E7}D",
            "Ctrl+Shift+E",
            is_macos,
            PaneAction::SplitFocused(SplitDirection::Horizontal),
        ),
    );
    items.push(
        pane_item("New Tab", "\u{2318}T", "Ctrl+Shift+T", is_macos, PaneAction::NewTab),
    );
    items.push(
        pane_item("Close Pane", "\u{2318}W", "Ctrl+Shift+W", is_macos, PaneAction::ClosePane),
    );
    items
}

/// Numbers as a list is written for inspection.
pub open spec fn path_text(path: Seq<usize>) -> Seq<char> {
    "["@ + strings::joined(
        path.map_values(|index: usize| strings::decimal(index as nat)),
        ", "@,
    ) + "]"@
}

fn format_path(path: &Vec<usize>) -> (text: String)
    ensures
        text@ == path_text(path@),
{
    let mut parts: Vec<String> = Vec::new();
    let ghost all = path@.map_values(|index: usize| strings::decimal(index as nat));
    let mut i: usize = 0;
    assert(strings::views(parts@) =~= all.take(0));
    while i < path.len()
        invariant
            i <= path@.len(),
            all == path@.map_values(|index: usize| strings::decimal(index as nat)),
            strings::views(parts@) == all.take(i as int),
        decreases path@.len() - i,
    {
        let part = strings::format_decimal(path[i] as u64);
        assert(part@ == all[i as int]);
        let ghost before = strings::views(parts@);
        parts.push(part);
        i = i + 1;
        assert(strings::views(parts@) =~= before.push(part@));
        assert(all.take(i as int) =~= all.take(i - 1).push(all[i - 1]));
    }
    assert(all.take(i as int) =~= all);
    let mut text = "[".to_owned();
    text.append(strings::join(&parts, ", ").as_str());
    text.append("]");
    text
}

/// The identity of a pane.
pub fn pane_id(project_id: &str, layout_path: &Vec<usize>) -> (id: String)
    ensures
        id@ == "pane-"@ + project_id@ + "-"@ + path_text(layout_path@),
{
    let mut id = strings::concat_text("pane-", project_id);
    id.append("-");
    id.append(format_path(layout_path).as_str());
    id
}

/// The identity of a divider.
pub fn divider_id(project_id: &str, layout_path: &Vec<usize>, left: usize, right: usize) -> (id:
    String)
    ensures
        id@ == "divider-"@ + project_id@ + "-"@ + path_text(layout_path@) + "-"@ + strings::decimal(
            left as nat,
        ) + "-"@ + strings::decimal(right as nat),
{
    let mut id = strings::concat_text("divider-", project_id);
    id.append("-");
    id.append(format_path(layout_path).as_str());
    id.append("-");
    strings::push_decimal(&mut id, left as u64);
    id.append("-");
    strings::push_decimal(&mut id, right as u64);
    id
}

/// The text that stands in place of a terminal or a layout.
pub fn placeholder_text(view: &PaneView) -> (text: Option<&'static str>)
    ensures
        match text {
            Some(text) => (*view is Starting && text@ == "Starting terminal..."@) || (*view
                is NoLayout && text@ == "No layout"@),
            None => !(*view is Starting) && !(*view is NoLayout),
        },
{
    match view {
        PaneView::Starting => Some("Starting terminal..."),
        PaneView::NoLayout => Some("No layout"),
        _ => None,
    }
}

/// A tab is shown wherever there is one: the active one, and the last one where there are fewer.
pub proof fn shown_tab_exists(child_count: nat, active_tab: usize)
    requires
        0 < child_count <= usize::MAX,
    ensures
        shown_tab(child_count, active_tab) < child_count,
        active_tab < child_count ==> shown_tab(child_count, active_tab) == active_tab,
        active_tab >= child_count ==> shown_tab(child_count, active_tab) == child_count - 1,
{
}

/// Splitting to the right lays the two panes beside each other, and splitting down one below the
/// other.
pub proof fn splits_lay_out_as_they_are_named(view: PaneView, node: LayoutNode, index: int)
    requires
        0 <= index < pane_menu().len(),
        is_view(view, Some(&node), true),
        node matches LayoutNode::Split { direction, .. } && pane_menu()[index].3
            == PaneAction::SplitFocused(direction),
    ensures
        view is Split,
        pane_menu()[index].0 == "Split Right"@ ==> !view->below_each_other,
        pane_menu()[index].0 == "Split Down"@ ==> view->below_each_other,
{
    reveal_strlit("Split Right");
    reveal_strlit("Split Down");
    assert("Split Right"@.len() != "Split Down"@.len());
    assert(index == 0 || index == 1 || index == 2 || index == 3);
}

/// The items of a pane's menu do what they are named after.
pub proof fn menu_items_do_what_they_say(index: int)
    requires
        0 <= index < pane_menu().len(),
    ensures
        pane_menu()[index].3 is NewTab == (pane_menu()[index].0 == "New Tab"@),
        pane_menu()[index].3 is ClosePane == (pane_menu()[index].0 == "Close Pane"@),
        pane_menu()[index].3 is SplitFocused == (pane_menu()[index].0 == "Split Right"@
            || pane_menu()[index].0 == "Split Down"@),
{
    reveal_strlit("Split Right");
    reveal_strlit("Split Down");
    reveal_strlit("New Tab");
    reveal_strlit("Close Pane");
    assert("Split Right"@.len() == 11 && "Split Down"@.len() == 10 && "New Tab"@.len() == 7
        && "Close Pane"@.len() == 10);
    assert("Split Down"@[0] == 'S' && "Close Pane"@[0] == 'C');
    assert(index == 0 || index == 1 || index == 2 || index == 3);
}

/// A node is drawn as what it is: a terminal by its own view where it has one, a split with each of
/// its children, and tabs by one of them.
pub proof fn nodes_are_drawn_as_they_are(view: PaneView, node: LayoutNode, has_view: bool)
    requires
        is_view(view, Some(&node), has_view),
    ensures
        node matches LayoutNode::Terminal { terminal_id } ==> (if terminal_id is Some && has_view {
            view matches PaneView::Terminal { terminal_id: shown } && shown@ == terminal_id->0@
        } else {
            view is Starting
        }),
        node matches LayoutNode::Split { direction, child_count } ==> child_count > 0 ==> (
        view matches PaneView::Split { elements, .. } && elements@.len() == 2 * child_count - 1),
        node matches LayoutNode::Tabs { child_count, active_tab } ==> active_tab < child_count ==> (
        view matches PaneView::Tab { index } && index == active_tab),
        !(view is NoLayout),
{
    if let LayoutNode::Split { direction, child_count } = node {
        if child_count > 0 {
            split_alternates(child_count as nat, 0);
        }
    }
}

/// Containers are kept exactly for the children that are still there.
pub proof fn containers_of_lost_children_are_dropped(
    container: &mut LayoutContainer,
    child_count: usize,
    path: Seq<usize>,
)
    requires
        call_ensures(LayoutContainer::retain_valid_children, (container, child_count), ()),
        path_views(old(container).child_containers@).contains(path),
    ensures
        path_views(final(container).child_containers@).contains(path) == (path.len()
            == old(container).layout_path@.len() + 1 && path.drop_last()
            == old(container).layout_path@ && path.last() < child_count),
{
    let all = path_views(old(container).child_containers@);
    let base = old(container).layout_path@;
    let kept = |path: Seq<usize>| is_child_path(base, child_count as nat, path);
    if path.len() == base.len() + 1 {
        assert(path.take(base.len() as int) =~= path.drop_last());
    }
    let i = choose|i: int| 0 <= i < all.len() && all[i] == path;
    if kept(path) {
        all.lemma_filter_contains(kept, i);
    }
    if all.filter(kept).contains(path) {
        let k = choose|k: int| 0 <= k < all.filter(kept).len() && all.filter(kept)[k] == path;
        all.lemma_filter_pred(kept, k);
    }
}

} // verus!
