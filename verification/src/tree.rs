//! Changed files as a tree of directories.

use crate::model::{
    ChangedFile, ChangedFileView, DiffSectionKind, DiffSelectionKey, DiffSelectionKeyView,
    RelativePath,
};
use crate::strings;
use vstd::prelude::*;

verus! {

/// A directory or a changed file.
#[derive(Debug, PartialEq, Eq)]
pub struct DiffTreeNode {
    pub name: String,
    pub path: RelativePath,
    pub kind: DiffTreeNodeKind,
    pub children: Vec<DiffTreeNode>,
}

/// What a node of the tree stands for.
#[derive(Debug, PartialEq, Eq)]
pub enum DiffTreeNodeKind {
    Directory,
    File(ChangedFile),
}

/// A node of the tree, mathematically. A directory has no file.
pub struct NodeView {
    pub name: Seq<char>,
    pub path: Seq<Seq<char>>,
    pub file: Option<ChangedFileView>,
    pub children: Seq<NodeView>,
}

/// What a node shows.
pub open spec fn node_view(node: DiffTreeNode) -> NodeView
    decreases node,
{
    NodeView {
        name: node.name@,
        path: node.path@,
        file: match node.kind {
            DiffTreeNodeKind::Directory => None,
            DiffTreeNodeKind::File(file) => Some(file@),
        },
        children: tree_view(node.children@),
    }
}

/// What a list of nodes shows.
pub open spec fn tree_view(nodes: Seq<DiffTreeNode>) -> Seq<NodeView>
    decreases nodes,
{
    if nodes.len() == 0 {
        Seq::empty()
    } else {
        tree_view(nodes.drop_last()).push(node_view(nodes[nodes.len() - 1]))
    }
}

/// The text orders before the other, character by character.
pub open spec fn text_lt(a: Seq<char>, b: Seq<char>) -> bool
    decreases a.len(),
{
    if b.len() == 0 {
        false
    } else if a.len() == 0 {
        true
    } else if a[0] != b[0] {
        a[0] < b[0]
    } else {
        text_lt(a.drop_first(), b.drop_first())
    }
}

/// The path orders before the other, name by name.
pub open spec fn path_lt(a: Seq<Seq<char>>, b: Seq<Seq<char>>) -> bool
    decreases a.len(),
{
    if b.len() == 0 {
        false
    } else if a.len() == 0 {
        true
    } else if a[0] != b[0] {
        text_lt(a[0], b[0])
    } else {
        path_lt(a.drop_first(), b.drop_first())
    }
}

/// A name put into an ordered list of distinct names.
pub open spec fn insert_name(names: Seq<Seq<char>>, name: Seq<char>) -> Seq<Seq<char>>
    decreases names.len(),
{
    if names.len() == 0 || text_lt(names.last(), name) {
        names.push(name)
    } else if names.last() == name {
        names
    } else {
        insert_name(names.drop_last(), name).push(names.last())
    }
}

/// The names of the directories that the files lie in below a directory of the given depth, in
/// order.
pub open spec fn directory_names(files: Seq<ChangedFileView>, depth: int) -> Seq<Seq<char>>
    decreases files.len(),
{
    if files.len() == 0 {
        Seq::empty()
    } else {
        let names = directory_names(files.drop_last(), depth);
        let path = files.last().relative_path;
        if path.len() > depth + 1 {
            insert_name(names, path[depth])
        } else {
            names
        }
    }
}

/// The file lies below the directory with the given name.
pub open spec fn lies_in(file: ChangedFileView, depth: int, name: Seq<char>) -> bool {
    file.relative_path.len() > depth + 1 && file.relative_path[depth] == name
}

/// The files below the directory with the given name.
pub open spec fn files_in(files: Seq<ChangedFileView>, depth: int, name: Seq<char>) -> Seq<
    ChangedFileView,
> {
    files.filter(|file: ChangedFileView| lies_in(file, depth, name))
}

/// A file put into a list ordered by path, behind those with the same path.
pub open spec fn insert_file(files: Seq<ChangedFileView>, file: ChangedFileView) -> Seq<
    ChangedFileView,
>
    decreases files.len(),
{
    if files.len() == 0 || !path_lt(file.relative_path, files.last().relative_path) {
        files.push(file)
    } else {
        insert_file(files.drop_last(), file).push(files.last())
    }
}

/// The files that lie directly in a directory of the given depth, ordered by path.
pub open spec fn direct_files(files: Seq<ChangedFileView>, depth: int) -> Seq<ChangedFileView>
    decreases files.len(),
{
    if files.len() == 0 {
        Seq::empty()
    } else {
        let before = direct_files(files.drop_last(), depth);
        if files.last().relative_path.len() == depth + 1 {
            insert_file(before, files.last())
        } else {
            before
        }
    }
}

/// The node of a file.
pub open spec fn file_node(file: ChangedFileView) -> NodeView {
    NodeView {
        name: file.relative_path.last(),
        path: file.relative_path,
        file: Some(file),
        children: Seq::empty(),
    }
}

/// The tree below a directory: first its directories by name, then its files by path. `limit`
/// bounds the length of the paths.
pub open spec fn tree(files: Seq<ChangedFileView>, base: Seq<Seq<char>>, limit: int) -> Seq<NodeView>
    decreases limit - base.len(),
{
    if base.len() >= limit {
        Seq::empty()
    } else {
        let depth = base.len() as int;
        let names = directory_names(files, depth);
        let direct = direct_files(files, depth);
        Seq::new(
            names.len(),
            |i: int|
                NodeView {
                    name: names[i],
                    path: base.push(names[i]),
                    file: None,
                    children: tree(files_in(files, depth, names[i]), base.push(names[i]), limit),
                },
        ) + Seq::new(direct.len(), |i: int| file_node(direct[i]))
    }
}

/// The files of a list.
pub open spec fn file_views(files: Seq<ChangedFile>) -> Seq<ChangedFileView> {
    files.map_values(|file: ChangedFile| file@)
}

/// The length of the longest path.
pub open spec fn longest_path(files: Seq<ChangedFileView>) -> nat
    decreases files.len(),
{
    if files.len() == 0 {
        0
    } else {
        let before = longest_path(files.drop_last());
        if files.last().relative_path.len() >= before {
            files.last().relative_path.len()
        } else {
            before
        }
    }
}

/// The tree of changed files.
pub open spec fn diff_tree(files: Seq<ChangedFileView>) -> Seq<NodeView> {
    tree(files, Seq::empty(), longest_path(files) as int)
}

/// Whether a text orders before another.
pub fn text_less(a: &str, b: &str) -> (less: bool)
    ensures
        less == text_lt(a@, b@),
{
    let x = strings::collect_chars(a);
    let y = strings::collect_chars(b);
    let mut i: usize = 0;
    assert(x@.skip(0) =~= x@);
    assert(y@.skip(0) =~= y@);
    while i < x.len() && i < y.len()
        invariant
            x@ == a@,
            y@ == b@,
            i <= x@.len(),
            i <= y@.len(),
            text_lt(x@, y@) == text_lt(x@.skip(i as int), y@.skip(i as int)),
        decreases x@.len() - i,
    {
        if x[i] != y[i] {
            return x[i] < y[i];
        }
        assert(x@.skip(i as int).drop_first() =~= x@.skip(i + 1));
        assert(y@.skip(i as int).drop_first() =~= y@.skip(i + 1));
        i = i + 1;
    }
    i < y.len()
}

/// Whether a path orders before another.
pub fn path_less(a: &RelativePath, b: &RelativePath) -> (less: bool)
    ensures
        less == path_lt(a@, b@),
{
    let mut i: usize = 0;
    assert(a@.skip(0) =~= a@);
    assert(b@.skip(0) =~= b@);
    while i < a.components.len() && i < b.components.len()
        invariant
            i <= a.components@.len(),
            i <= b.components@.len(),
            path_lt(a@, b@) == path_lt(a@.skip(i as int), b@.skip(i as int)),
        decreases a.components@.len() - i,
    {
        let x = a.components[i].as_str();
        let y = b.components[i].as_str();
        assert(a@.skip(i as int)[0] == x@);
        assert(b@.skip(i as int)[0] == y@);
        if !strings::same_text(x, y) {
            return text_less(x, y);
        }
        assert(a@.skip(i as int).drop_first() =~= a@.skip(i + 1));
        assert(b@.skip(i as int).drop_first() =~= b@.skip(i + 1));
        i = i + 1;
    }
    i < b.components.len()
}

/// The files at the given indices.
pub open spec fn chosen_files(files: Seq<ChangedFile>, chosen: Seq<usize>) -> Seq<ChangedFileView> {
    chosen.map_values(|index: usize| files[index as int]@)
}

/// Every index is one of a file.
pub open spec fn indices_fit(files: Seq<ChangedFile>, chosen: Seq<usize>) -> bool {
    forall|i: int| 0 <= i < chosen.len() ==> (#[trigger] chosen[i]) < files.len()
}

proof fn lemma_tree_view_push(nodes: Seq<DiffTreeNode>, node: DiffTreeNode)
    ensures
        tree_view(nodes.push(node)) == tree_view(nodes).push(node_view(node)),
{
    let all = nodes.push(node);
    assert(all.drop_last() =~= nodes);
    assert(all[all.len() - 1] == node);
}

/// The nodes are shown one by one.
pub proof fn lemma_tree_view_index(nodes: Seq<DiffTreeNode>)
    ensures
        tree_view(nodes).len() == nodes.len(),
        forall|i: int|
            0 <= i < nodes.len() ==> #[trigger] tree_view(nodes)[i] == node_view(nodes[i]),
    decreases nodes.len(),
{
    if nodes.len() > 0 {
        lemma_tree_view_index(nodes.drop_last());
    }
}

/// Puts a name into an ordered list of distinct names.
pub fn insert_name_in_order(names: &mut Vec<String>, name: &String)
    ensures
        strings::views(final(names)@) == insert_name(strings::views(old(names)@), name@),
    decreases old(names)@.len(),
{
    let len = names.len();
    let ghost before = strings::views(names@);
    if len == 0 || text_less(names[len - 1].as_str(), name.as_str()) {
        names.push(name.clone());
        assert(strings::views(names@) =~= before.push(name@));
    } else if strings::same_text(names[len - 1].as_str(), name.as_str()) {
    } else {
        let ghost all = names@;
        let last = names.pop();
        assert(strings::views(names@) =~= before.drop_last());
        insert_name_in_order(names, name);
        let ghost middle = strings::views(names@);
        match last {
            Some(last) => {
                names.push(last);
                assert(strings::views(names@) =~= middle.push(before.last()));
            },
            None => {},
        }
    }
}

/// The names of the directories below a directory of the given depth.
fn collect_directory_names(files: &Vec<ChangedFile>, chosen: &Vec<usize>, depth: usize) -> (names:
    Vec<String>)
    requires
        indices_fit(files@, chosen@),
        depth < usize::MAX,
    ensures
        strings::views(names@) == directory_names(chosen_files(files@, chosen@), depth as int),
{
    let mut names: Vec<String> = Vec::new();
    let ghost all = chosen_files(files@, chosen@);
    let mut i: usize = 0;
    assert(strings::views(names@) =~= directory_names(all.take(0), depth as int));
    while i < chosen.len()
        invariant
            i <= chosen@.len(),
            indices_fit(files@, chosen@),
            depth < usize::MAX,
            all == chosen_files(files@, chosen@),
            strings::views(names@) == directory_names(all.take(i as int), depth as int),
        decreases chosen@.len() - i,
    {
        let path = &files[chosen[i]].relative_path;
        assert(all.take(i + 1).drop_last() =~= all.take(i as int));
        assert(all.take(i + 1).last() == files@[chosen@[i as int] as int]@);
        if path.components.len() > depth + 1 {
            assert(path@[depth as int] == path.components@[depth as int]@);
            insert_name_in_order(&mut names, &path.components[depth]);
        }
        i = i + 1;
    }
    assert(all.take(i as int) =~= all);
    names
}

/// The files below the directory with the given name.
fn select_files(
    files: &Vec<ChangedFile>,
    chosen: &Vec<usize>,
    depth: usize,
    name: &String,
) -> (selected: Vec<usize>)
    requires
        indices_fit(files@, chosen@),
        depth < usize::MAX,
    ensures
        indices_fit(files@, selected@),
        chosen_files(files@, selected@) == files_in(
            chosen_files(files@, chosen@),
            depth as int,
            name@,
        ),
{
    broadcast use vstd::seq_lib::group_filter_ensures;

    let mut selected: Vec<usize> = Vec::new();
    let ghost all = chosen_files(files@, chosen@);
    let ghost keep = |file: ChangedFileView| lies_in(file, depth as int, name@);
    let mut i: usize = 0;
    assert(chosen_files(files@, selected@) =~= all.take(0).filter(keep));
    while i < chosen.len()
        invariant
            i <= chosen@.len(),
            indices_fit(files@, chosen@),
            depth < usize::MAX,
            all == chosen_files(files@, chosen@),
            keep == (|file: ChangedFileView| lies_in(file, depth as int, name@)),
            indices_fit(files@, selected@),
            chosen_files(files@, selected@) == all.take(i as int).filter(keep),
        decreases chosen@.len() - i,
    {
        let index = chosen[i];
        let path = &files[index].relative_path;
        let inside = path.components.len() > depth + 1 && strings::same_text(
            path.components[depth].as_str(),
            name.as_str(),
        );
        let ghost before = chosen_files(files@, selected@);
        let ghost file = files@[index as int]@;
        if inside {
            selected.push(index);
            assert(chosen_files(files@, selected@) =~= before.push(file));
        }
        proof {
            if path.components@.len() > depth + 1 {
                assert(path@[depth as int] == path.components@[depth as int]@);
            }
            assert(all.take(i + 1) =~= all.take(i as int).push(file));
            all.take(i as int).lemma_filter_push(file, keep);
        }
        i = i + 1;
    }
    assert(all.take(i as int) =~= all);
    selected
}

/// Puts a file into a list ordered by path.
fn insert_file_in_order(files: &Vec<ChangedFile>, ordered: &mut Vec<usize>, index: usize)
    requires
        indices_fit(files@, old(ordered)@),
        index < files@.len(),
    ensures
        indices_fit(files@, final(ordered)@),
        chosen_files(files@, final(ordered)@) == insert_file(
            chosen_files(files@, old(ordered)@),
            files@[index as int]@,
        ),
    decreases old(ordered)@.len(),
{
    let len = ordered.len();
    let ghost before = chosen_files(files@, ordered@);
    if len == 0 || !path_less(
        &files[index].relative_path,
        &files[ordered[len - 1]].relative_path,
    ) {
        ordered.push(index);
        assert(chosen_files(files@, ordered@) =~= before.push(files@[index as int]@));
    } else {
        let last = ordered[len - 1];
        ordered.pop();
        assert(chosen_files(files@, ordered@) =~= before.drop_last());
        insert_file_in_order(files, ordered, index);
        let ghost middle = chosen_files(files@, ordered@);
        ordered.push(last);
        assert(chosen_files(files@, ordered@) =~= middle.push(before.last()));
    }
}

/// The files that lie directly in a directory of the given depth.
fn select_direct_files(files: &Vec<ChangedFile>, chosen: &Vec<usize>, depth: usize) -> (direct: Vec<
    usize,
>)
    requires
        indices_fit(files@, chosen@),
        depth < usize::MAX,
    ensures
        indices_fit(files@, direct@),
        chosen_files(files@, direct@) == direct_files(
            chosen_files(files@, chosen@),
            depth as int,
        ),
{
    let mut direct: Vec<usize> = Vec::new();
    let ghost all = chosen_files(files@, chosen@);
    let mut i: usize = 0;
    assert(chosen_files(files@, direct@) =~= direct_files(all.take(0), depth as int));
    while i < chosen.len()
        invariant
            i <= chosen@.len(),
            indices_fit(files@, chosen@),
            depth < usize::MAX,
            all == chosen_files(files@, chosen@),
            indices_fit(files@, direct@),
            chosen_files(files@, direct@) == direct_files(all.take(i as int), depth as int),
        decreases chosen@.len() - i,
    {
        assert(all.take(i + 1).drop_last() =~= all.take(i as int));
        assert(all.take(i + 1).last() == files@[chosen@[i as int] as int]@);
        if files[chosen[i]].relative_path.components.len() == depth + 1 {
            insert_file_in_order(files, &mut direct, chosen[i]);
        }
        i = i + 1;
    }
    assert(all.take(i as int) =~= all);
    direct
}

/// The tree below a directory.
fn build_level(
    files: &Vec<ChangedFile>,
    chosen: &Vec<usize>,
    base: &Vec<String>,
    limit: usize,
) -> (nodes: Vec<DiffTreeNode>)
    requires
        indices_fit(files@, chosen@),
    ensures
        tree_view(nodes@) == tree(
            chosen_files(files@, chosen@),
            strings::views(base@),
            limit as int,
        ),
    decreases limit - base@.len(),
{
    let mut nodes: Vec<DiffTreeNode> = Vec::new();
    let depth = base.len();
    if depth >= limit {
        assert(tree_view(nodes@) =~= Seq::<NodeView>::empty());
        return nodes;
    }
    let ghost all = chosen_files(files@, chosen@);
    let ghost prefix = strings::views(base@);
    let names = collect_directory_names(files, chosen, depth);
    let ghost name_views = strings::views(names@);
    let ghost expected = tree(all, prefix, limit as int);
    let mut i: usize = 0;
    while i < names.len()
        invariant
            i <= names@.len(),
            indices_fit(files@, chosen@),
            depth == base@.len(),
            depth < limit,
            all == chosen_files(files@, chosen@),
            prefix == strings::views(base@),
            name_views == strings::views(names@),
            name_views == directory_names(all, depth as int),
            expected == tree(all, prefix, limit as int),
            tree_view(nodes@) == expected.take(i as int),
        decreases names@.len() - i,
    {
        let name = &names[i];
        let selected = select_files(files, chosen, depth, name);
        let mut path = strings::copy_strings(base);
        path.push(name.clone());
        assert(strings::views(path@) =~= prefix.push(name@));
        let children = build_level(files, &selected, &path, limit);
        let node = DiffTreeNode {
            name: name.clone(),
            path: RelativePath { components: path },
            kind: DiffTreeNodeKind::Directory,
            children,
        };
        proof {
            lemma_tree_view_push(nodes@, node);
            assert(name_views[i as int] == name@);
            assert(node_view(node) == expected[i as int]);
            assert(expected.take(i + 1) =~= expected.take(i as int).push(expected[i as int]));
        }
        nodes.push(node);
        i = i + 1;
    }
    let direct = select_direct_files(files, chosen, depth);
    let ghost direct_views = chosen_files(files@, direct@);
    let mut k: usize = 0;
    while k < direct.len()
        invariant
            k <= direct@.len(),
            indices_fit(files@, direct@),
            depth == prefix.len(),
            depth < limit,
            direct_views == chosen_files(files@, direct@),
            direct_views == direct_files(all, depth as int),
            name_views == directory_names(all, depth as int),
            expected == tree(all, prefix, limit as int),
            tree_view(nodes@) == expected.take(name_views.len() + k),
        decreases direct@.len() - k,
    {
        let file = &files[direct[k]];
        let count = file.relative_path.components.len();
        proof {
            lemma_direct_files(all, depth as int);
            assert(direct_views[k as int] == file@);
        }
        let node = DiffTreeNode {
            name: file.relative_path.components[count - 1].clone(),
            path: file.relative_path.clone(),
            kind: DiffTreeNodeKind::File(file.clone()),
            children: Vec::new(),
        };
        proof {
            lemma_tree_view_push(nodes@, node);
            assert(tree_view(node.children@) =~= Seq::<NodeView>::empty());
            assert(node.name@ == file@.relative_path.last());
            assert(node_view(node) == file_node(direct_views[k as int]));
            let at = name_views.len() + k;
            assert(expected[at] == file_node(direct_views[k as int]));
            assert(expected.take(at + 1) =~= expected.take(at).push(expected[at]));
        }
        nodes.push(node);
        k = k + 1;
    }
    assert(expected.take(name_views.len() + k) =~= expected);
    nodes
}

/// Direct files have paths one longer than the depth.
proof fn lemma_direct_files(files: Seq<ChangedFileView>, depth: int)
    ensures
        forall|i: int|
            0 <= i < direct_files(files, depth).len() ==> (#[trigger] direct_files(
                files,
                depth,
            )[i]).relative_path.len() == depth + 1,
    decreases files.len(),
{
    if files.len() > 0 {
        lemma_direct_files(files.drop_last(), depth);
        if files.last().relative_path.len() == depth + 1 {
            lemma_insert_file(direct_files(files.drop_last(), depth), files.last(), depth);
        }
    }
}

proof fn lemma_insert_file(files: Seq<ChangedFileView>, file: ChangedFileView, depth: int)
    requires
        file.relative_path.len() == depth + 1,
        forall|i: int|
            0 <= i < files.len() ==> (#[trigger] files[i]).relative_path.len() == depth + 1,
    ensures
        forall|i: int|
            0 <= i < insert_file(files, file).len() ==> (#[trigger] insert_file(
                files,
                file,
            )[i]).relative_path.len() == depth + 1,
    decreases files.len(),
{
    if files.len() == 0 || !path_lt(file.relative_path, files.last().relative_path) {
    } else {
        lemma_insert_file(files.drop_last(), file, depth);
    }
}

/// The tree of changed files: directories before files, both in order.
pub fn build_diff_tree(files: &Vec<ChangedFile>) -> (nodes: Vec<DiffTreeNode>)
    ensures
        tree_view(nodes@) == diff_tree(file_views(files@)),
{
    let mut chosen: Vec<usize> = Vec::new();
    let mut limit: usize = 0;
    let mut i: usize = 0;
    while i < files.len()
        invariant
            i <= files@.len(),
            chosen@.len() == i,
            forall|k: int| 0 <= k < i ==> #[trigger] chosen@[k] == k,
            limit == longest_path(file_views(files@).take(i as int)),
        decreases files@.len() - i,
    {
        chosen.push(i);
        assert(file_views(files@).take(i + 1).drop_last() =~= file_views(files@).take(i as int));
        assert(files@[i as int].relative_path@.len() == files@[i as int].relative_path.components@.len());
        let len = files[i].relative_path.components.len();
        if len >= limit {
            limit = len;
        }
        i = i + 1;
    }
    assert(file_views(files@).take(i as int) =~= file_views(files@));
    assert(chosen_files(files@, chosen@) =~= file_views(files@));
    let base: Vec<String> = Vec::new();
    assert(strings::views(base@) =~= Seq::<Seq<char>>::empty());
    build_level(files, &chosen, &base, limit)
}

/// The keys of the files of a list of nodes.
pub open spec fn file_keys(nodes: Seq<NodeView>, section: DiffSectionKind) -> Seq<
    DiffSelectionKeyView,
>
    decreases nodes,
{
    if nodes.len() == 0 {
        Seq::empty()
    } else {
        let node = nodes[nodes.len() - 1];
        file_keys(nodes.drop_last(), section) + match node.file {
            None => file_keys(node.children, section),
            Some(file) => seq![
                DiffSelectionKeyView { section, relative_path: file.relative_path },
            ],
        }
    }
}

/// The keys of a list.
pub open spec fn key_views(keys: Seq<DiffSelectionKey>) -> Seq<DiffSelectionKeyView> {
    keys.map_values(|key: DiffSelectionKey| key@)
}

/// Appends the keys of all files of a tree, from top to bottom.
pub fn collect_file_keys(
    nodes: &Vec<DiffTreeNode>,
    section: DiffSectionKind,
    out: &mut Vec<DiffSelectionKey>,
)
    ensures
        key_views(final(out)@) == key_views(old(out)@) + file_keys(tree_view(nodes@), section),
    decreases nodes,
{
    let ghost before = key_views(out@);
    let ghost all = tree_view(nodes@);
    proof {
        lemma_tree_view_index(nodes@);
        assert(all.take(0) =~= Seq::<NodeView>::empty());
        assert(key_views(out@) =~= before + file_keys(all.take(0), section));
    }
    let mut i: usize = 0;
    while i < nodes.len()
        invariant
            i <= nodes@.len(),
            all == tree_view(nodes@),
            all.len() == nodes@.len(),
            forall|k: int|
                0 <= k < nodes@.len() ==> #[trigger] tree_view(nodes@)[k] == node_view(nodes@[k]),
            key_views(out@) == before + file_keys(all.take(i as int), section),
        decreases nodes@.len() - i,
    {
        let node = &nodes[i];
        let ghost current = key_views(out@);
        proof {
            let longer = all.take(i + 1);
            assert(longer.drop_last() =~= all.take(i as int));
            assert(longer[longer.len() - 1] == node_view(*node));
        }
        match &node.kind {
            DiffTreeNodeKind::Directory => {
                collect_file_keys(&node.children, section, out);
            },
            DiffTreeNodeKind::File(file) => {
                let key = DiffSelectionKey { section, relative_path: file.relative_path.clone() };
                out.push(key);
                assert(key_views(out@) =~= current.push(key@));
            },
        }
        assert(key_views(out@) =~= before + file_keys(all.take(i + 1), section));
        i = i + 1;
    }
    assert(all.take(i as int) =~= all);
}

/// The order of texts is a strict total order.
pub proof fn lemma_text_order(a: Seq<char>, b: Seq<char>, c: Seq<char>)
    ensures
        !text_lt(a, a),
        text_lt(a, b) && text_lt(b, c) ==> text_lt(a, c),
        text_lt(a, b) || a == b || text_lt(b, a),
        !(text_lt(a, b) && text_lt(b, a)),
    decreases a.len() + b.len() + c.len(),
{
    if a.len() > 0 {
        lemma_text_order(
            a.drop_first(),
            if b.len() > 0 {
                b.drop_first()
            } else {
                b
            },
            if c.len() > 0 {
                c.drop_first()
            } else {
                c
            },
        );
        if b.len() > 0 && a[0] == b[0] && a.drop_first() == b.drop_first() {
            assert(a =~= seq![a[0]] + a.drop_first());
            assert(b =~= seq![b[0]] + b.drop_first());
        }
    } else if b.len() == 0 {
        assert(a =~= b);
    }
}

/// Names in strictly increasing order.
pub open spec fn names_ordered(names: Seq<Seq<char>>) -> bool {
    forall|i: int, j: int|
        0 <= i < j < names.len() ==> text_lt(#[trigger] names[i], #[trigger] names[j])
}

/// A name put in order is there, and nothing else comes or goes.
pub proof fn lemma_insert_name(names: Seq<Seq<char>>, name: Seq<char>)
    requires
        names_ordered(names),
    ensures
        names_ordered(insert_name(names, name)),
        insert_name(names, name).contains(name),
        forall|other: Seq<char>| #[trigger]
            insert_name(names, name).contains(other) == (names.contains(other) || other == name),
    decreases names.len(),
{
    let out = insert_name(names, name);
    if names.len() == 0 || text_lt(names.last(), name) {
        assert(out[names.len() as int] == name);
        assert forall|i: int, j: int| 0 <= i < j < out.len() implies text_lt(
            #[trigger] out[i],
            #[trigger] out[j],
        ) by {
            if j == names.len() && i < names.len() - 1 {
                assert(text_lt(names[i], names[names.len() - 1]));
                lemma_text_order(names[i], names[names.len() - 1], name);
            }
        }
        assert forall|other: Seq<char>| #[trigger] out.contains(other) == (names.contains(other)
            || other == name) by {
            if names.contains(other) {
                let k = choose|k: int| 0 <= k < names.len() && names[k] == other;
                assert(out[k] == other);
            }
            if out.contains(other) && other != name {
                let k = choose|k: int| 0 <= k < out.len() && out[k] == other;
                assert(names[k] == other);
            }
        }
    } else if names.last() == name {
        assert(names[names.len() - 1] == name);
    } else {
        let rest = names.drop_last();
        let last = names.last();
        assert(names[names.len() - 1] == last);
        lemma_insert_name(rest, name);
        let inner = insert_name(rest, name);
        lemma_text_order(last, name, name);
        assert(text_lt(name, last));
        assert forall|i: int, j: int| 0 <= i < j < out.len() implies text_lt(
            #[trigger] out[i],
            #[trigger] out[j],
        ) by {
            if j < inner.len() {
                assert(out[i] == inner[i] && out[j] == inner[j]);
            } else {
                assert(out[i] == inner[i]);
                assert(inner.contains(inner[i]));
                if inner[i] != name {
                    assert(rest.contains(inner[i]));
                    let k = choose|k: int| 0 <= k < rest.len() && rest[k] == inner[i];
                    assert(text_lt(names[k], names[names.len() - 1]));
                }
            }
        }
        assert forall|other: Seq<char>| #[trigger] out.contains(other) == (names.contains(other)
            || other == name) by {
            assert(inner.contains(other) == (rest.contains(other) || other == name));
            if names.contains(other) {
                let k = choose|k: int| 0 <= k < names.len() && names[k] == other;
                if k < rest.len() {
                    assert(rest[k] == other);
                    assert(inner.contains(other));
                    let m = choose|m: int| 0 <= m < inner.len() && inner[m] == other;
                    assert(out[m] == other);
                } else {
                    assert(out[inner.len() as int] == other);
                }
            }
            if other == name {
                assert(inner.contains(name));
                let m = choose|m: int| 0 <= m < inner.len() && inner[m] == name;
                assert(out[m] == name);
            }
            if out.contains(other) {
                let k = choose|k: int| 0 <= k < out.len() && out[k] == other;
                if k < inner.len() {
                    assert(inner[k] == other);
                    assert(inner.contains(other));
                    if rest.contains(other) {
                        let m = choose|m: int| 0 <= m < rest.len() && rest[m] == other;
                        assert(names[m] == other);
                    }
                } else {
                    assert(names[names.len() - 1] == other);
                }
            }
        }
        assert(out.contains(name));
    }
}

/// The directory names are in order, and each directory that a file lies in is among them.
pub proof fn lemma_directory_names(files: Seq<ChangedFileView>, depth: int)
    ensures
        names_ordered(directory_names(files, depth)),
        forall|i: int|
            #![trigger files[i]]
            0 <= i < files.len() && files[i].relative_path.len() > depth + 1 ==> directory_names(
                files,
                depth,
            ).contains(files[i].relative_path[depth]),
    decreases files.len(),
{
    if files.len() > 0 {
        let rest = files.drop_last();
        lemma_directory_names(rest, depth);
        let path = files.last().relative_path;
        if path.len() > depth + 1 {
            lemma_insert_name(directory_names(rest, depth), path[depth]);
        }
        assert forall|i: int|
            #![trigger files[i]]
            0 <= i < files.len() && files[i].relative_path.len() > depth
                + 1 implies directory_names(files, depth).contains(files[i].relative_path[depth]) by {
            if i < rest.len() {
                assert(rest[i] == files[i]);
                assert(directory_names(rest, depth).contains(files[i].relative_path[depth]));
            }
        }
    }
}

/// How often a value occurs in a sequence.
pub open spec fn occurrences<A>(items: Seq<A>, value: A) -> nat
    decreases items.len(),
{
    if items.len() == 0 {
        0
    } else {
        occurrences(items.drop_last(), value) + if items.last() == value {
            1nat
        } else {
            0nat
        }
    }
}

proof fn lemma_occurrences_concat<A>(a: Seq<A>, b: Seq<A>, value: A)
    ensures
        occurrences(a + b, value) == occurrences(a, value) + occurrences(b, value),
    decreases b.len(),
{
    if b.len() == 0 {
        assert(a + b =~= a);
    } else {
        assert((a + b).drop_last() =~= a + b.drop_last());
        lemma_occurrences_concat(a, b.drop_last(), value);
    }
}

proof fn lemma_file_keys_concat(a: Seq<NodeView>, b: Seq<NodeView>, section: DiffSectionKind)
    ensures
        file_keys(a + b, section) == file_keys(a, section) + file_keys(b, section),
    decreases b.len(),
{
    if b.len() == 0 {
        assert(a + b =~= a);
        assert(file_keys(a, section) + file_keys(b, section) =~= file_keys(a, section));
    } else {
        assert((a + b).drop_last() =~= a + b.drop_last());
        lemma_file_keys_concat(a, b.drop_last(), section);
        assert(file_keys(a + b, section) =~= file_keys(a, section) + file_keys(b, section));
    }
}

/// The key of a file.
pub open spec fn key_of(file: ChangedFileView, section: DiffSectionKind) -> DiffSelectionKeyView {
    DiffSelectionKeyView { section, relative_path: file.relative_path }
}

/// The keys of files.
pub open spec fn keys_of(files: Seq<ChangedFileView>, section: DiffSectionKind) -> Seq<
    DiffSelectionKeyView,
> {
    files.map_values(|file: ChangedFileView| key_of(file, section))
}

proof fn lemma_keys_of_push(
    files: Seq<ChangedFileView>,
    file: ChangedFileView,
    section: DiffSectionKind,
    key: DiffSelectionKeyView,
)
    ensures
        occurrences(keys_of(files.push(file), section), key) == occurrences(
            keys_of(files, section),
            key,
        ) + if key_of(file, section) == key {
            1nat
        } else {
            0nat
        },
{
    let all = keys_of(files.push(file), section);
    assert(all.drop_last() =~= keys_of(files, section));
    assert(all.last() == key_of(file, section));
}

proof fn lemma_insert_file_count(
    files: Seq<ChangedFileView>,
    file: ChangedFileView,
    section: DiffSectionKind,
    key: DiffSelectionKeyView,
)
    ensures
        occurrences(keys_of(insert_file(files, file), section), key) == occurrences(
            keys_of(files.push(file), section),
            key,
        ),
    decreases files.len(),
{
    if files.len() == 0 || !path_lt(file.relative_path, files.last().relative_path) {
    } else {
        let rest = files.drop_last();
        lemma_insert_file_count(rest, file, section, key);
        lemma_keys_of_push(insert_file(rest, file), files.last(), section, key);
        lemma_keys_of_push(rest, file, section, key);
        lemma_keys_of_push(files, file, section, key);
        assert(files =~= rest.push(files.last()));
        lemma_keys_of_push(rest, files.last(), section, key);
    }
}

/// A key of a file right in the directory occurs among the direct files as often as among all.
proof fn lemma_direct_count(
    files: Seq<ChangedFileView>,
    depth: int,
    section: DiffSectionKind,
    key: DiffSelectionKeyView,
)
    ensures
        occurrences(keys_of(direct_files(files, depth), section), key)
            == if key.relative_path.len() == depth + 1 {
            occurrences(keys_of(files, section), key)
        } else {
            0
        },
    decreases files.len(),
{
    if files.len() > 0 {
        let rest = files.drop_last();
        lemma_direct_count(rest, depth, section, key);
        assert(files =~= rest.push(files.last()));
        lemma_keys_of_push(rest, files.last(), section, key);
        let before = direct_files(rest, depth);
        if files.last().relative_path.len() == depth + 1 {
            lemma_insert_file_count(before, files.last(), section, key);
            lemma_keys_of_push(before, files.last(), section, key);
        }
    }
}

/// A key occurs below a directory as often as among all files where its path goes through that
/// directory, and else not at all.
proof fn lemma_files_in_count(
    files: Seq<ChangedFileView>,
    depth: int,
    name: Seq<char>,
    section: DiffSectionKind,
    key: DiffSelectionKeyView,
)
    ensures
        occurrences(keys_of(files_in(files, depth, name), section), key)
            == if key.relative_path.len() > depth + 1 && key.relative_path[depth] == name {
            occurrences(keys_of(files, section), key)
        } else {
            0
        },
    decreases files.len(),
{
    broadcast use vstd::seq_lib::group_filter_ensures;

    let keep = |file: ChangedFileView| lies_in(file, depth, name);
    if files.len() == 0 {
        assert(files.filter(keep) =~= Seq::<ChangedFileView>::empty());
    } else {
        let rest = files.drop_last();
        lemma_files_in_count(rest, depth, name, section, key);
        assert(files =~= rest.push(files.last()));
        rest.lemma_filter_push(files.last(), keep);
        lemma_keys_of_push(rest, files.last(), section, key);
        if keep(files.last()) {
            lemma_keys_of_push(rest.filter(keep), files.last(), section, key);
        }
    }
}

proof fn lemma_file_nodes_keys(files: Seq<ChangedFileView>, section: DiffSectionKind)
    ensures
        file_keys(Seq::new(files.len(), |i: int| file_node(files[i])), section) == keys_of(
            files,
            section,
        ),
    decreases files.len(),
{
    let nodes = Seq::new(files.len(), |i: int| file_node(files[i]));
    if files.len() == 0 {
        assert(file_keys(nodes, section) =~= keys_of(files, section));
    } else {
        let rest = files.drop_last();
        lemma_file_nodes_keys(rest, section);
        assert(nodes.drop_last() =~= Seq::new(rest.len(), |i: int| file_node(rest[i])));
        assert(file_keys(nodes, section) =~= keys_of(files, section));
    }
}

/// The paths of the files lead below a directory of the given depth.
spec fn paths_lead(files: Seq<ChangedFileView>, depth: int, limit: int) -> bool {
    forall|i: int|
        0 <= i < files.len() ==> depth < (#[trigger] files[i]).relative_path.len() <= limit
}

/// The nodes of the first directories.
spec fn directory_nodes(
    files: Seq<ChangedFileView>,
    base: Seq<Seq<char>>,
    limit: int,
    names: Seq<Seq<char>>,
    count: nat,
) -> Seq<NodeView> {
    Seq::new(
        count,
        |i: int|
            NodeView {
                name: names[i],
                path: base.push(names[i]),
                file: None,
                children: tree(
                    files_in(files, base.len() as int, names[i]),
                    base.push(names[i]),
                    limit,
                ),
            },
    )
}

/// The directory of a key's path is one of the first names.
spec fn names_reach(names: Seq<Seq<char>>, count: int, key: DiffSelectionKeyView, depth: int) -> bool {
    key.relative_path.len() > depth + 1 && exists|i: int|
        0 <= i < count && #[trigger] names[i] == key.relative_path[depth]
}

proof fn lemma_directories_count(
    files: Seq<ChangedFileView>,
    base: Seq<Seq<char>>,
    limit: int,
    names: Seq<Seq<char>>,
    count: nat,
    section: DiffSectionKind,
    key: DiffSelectionKeyView,
)
    requires
        base.len() < limit,
        paths_lead(files, base.len() as int, limit),
        names_ordered(names),
        count <= names.len(),
    ensures
        occurrences(file_keys(directory_nodes(files, base, limit, names, count), section), key)
            == if names_reach(names, count as int, key, base.len() as int) {
            occurrences(keys_of(files, section), key)
        } else {
            0
        },
    decreases limit - base.len(), count,
{
    let depth = base.len() as int;
    let nodes = directory_nodes(files, base, limit, names, count);
    if count > 0 {
        let at = count - 1;
        let before = directory_nodes(files, base, limit, names, at as nat);
        lemma_directories_count(files, base, limit, names, at as nat, section, key);
        assert(nodes.drop_last() =~= before);
        let selected = files_in(files, depth, names[at]);
        assert(paths_lead(selected, depth + 1, limit)) by {
            broadcast use vstd::seq_lib::group_filter_ensures;

            let keep = |file: ChangedFileView| lies_in(file, depth, names[at]);
            assert forall|i: int| 0 <= i < selected.len() implies depth + 1 < (
            #[trigger] selected[i]).relative_path.len() <= limit by {
                lemma_filtered_from(files, keep, i);
            }
        }
        lemma_tree_count(selected, base.push(names[at]), limit, section, key);
        lemma_files_in_count(files, depth, names[at], section, key);
        lemma_occurrences_concat(
            file_keys(before, section),
            file_keys(nodes[at].children, section),
            key,
        );
        assert(nodes[nodes.len() - 1] == nodes[at]);
        if key.relative_path.len() > depth + 1 {
            if names_reach(names, at, key, depth) {
                let k = choose|k: int|
                    0 <= k < at && #[trigger] names[k] == key.relative_path[depth];
                assert(text_lt(names[k], names[at]));
                lemma_text_order(names[k], names[at], names[at]);
                assert(names_reach(names, count as int, key, depth));
            } else if names[at] == key.relative_path[depth] {
                assert(names_reach(names, count as int, key, depth));
            } else if names_reach(names, count as int, key, depth) {
                let k = choose|k: int|
                    0 <= k < count && #[trigger] names[k] == key.relative_path[depth];
                assert(k < at);
            }
        }
    }
}

/// Every element that a filter keeps is one of the sequence, and is kept rightly.
proof fn lemma_filtered_from(
    files: Seq<ChangedFileView>,
    keep: spec_fn(ChangedFileView) -> bool,
    i: int,
)
    requires
        0 <= i < files.filter(keep).len(),
    ensures
        keep(files.filter(keep)[i]),
        files.contains(files.filter(keep)[i]),
    decreases files.len(),
{
    reveal(Seq::filter);
    let rest = files.drop_last();
    if i < rest.filter(keep).len() {
        lemma_filtered_from(rest, keep, i);
        let k = choose|k: int| 0 <= k < rest.len() && rest[k] == rest.filter(keep)[i];
        assert(files[k] == rest.filter(keep)[i]);
    } else {
        assert(files[files.len() - 1] == files.filter(keep)[i]);
    }
}

proof fn lemma_tree_count(
    files: Seq<ChangedFileView>,
    base: Seq<Seq<char>>,
    limit: int,
    section: DiffSectionKind,
    key: DiffSelectionKeyView,
)
    requires
        paths_lead(files, base.len() as int, limit),
    ensures
        occurrences(file_keys(tree(files, base, limit), section), key) == occurrences(
            keys_of(files, section),
            key,
        ),
    decreases limit - base.len(), directory_names(files, base.len() as int).len() + 1,
{
    let depth = base.len() as int;
    if depth >= limit {
        if files.len() > 0 {
            assert(files[0].relative_path.len() <= limit);
        }
        assert(keys_of(files, section) =~= Seq::<DiffSelectionKeyView>::empty());
    } else {
        let names = directory_names(files, depth);
        let direct = direct_files(files, depth);
        let head = directory_nodes(files, base, limit, names, names.len());
        let tail = Seq::new(direct.len(), |i: int| file_node(direct[i]));
        assert(tree(files, base, limit) =~= head + tail);
        lemma_file_keys_concat(head, tail, section);
        lemma_file_nodes_keys(direct, section);
        lemma_occurrences_concat(file_keys(head, section), file_keys(tail, section), key);
        lemma_directory_names(files, depth);
        lemma_directories_count(files, base, limit, names, names.len(), section, key);
        lemma_direct_count(files, depth, section, key);
        if occurrences(keys_of(files, section), key) > 0 {
            lemma_occurs(files, section, key);
            let k = choose|k: int|
                0 <= k < files.len() && key_of(#[trigger] files[k], section) == key;
            assert(files[k].relative_path == key.relative_path);
            if key.relative_path.len() > depth + 1 {
                assert(names.contains(files[k].relative_path[depth]));
                let m = choose|m: int|
                    0 <= m < names.len() && names[m] == files[k].relative_path[depth];
                assert(names[m] == key.relative_path[depth]);
                assert(names_reach(names, names.len() as int, key, depth));
            }
        }
    }
}

proof fn lemma_occurs(
    files: Seq<ChangedFileView>,
    section: DiffSectionKind,
    key: DiffSelectionKeyView,
)
    requires
        occurrences(keys_of(files, section), key) > 0,
    ensures
        exists|k: int| 0 <= k < files.len() && key_of(#[trigger] files[k], section) == key,
    decreases files.len(),
{
    if files.len() > 0 {
        let rest = files.drop_last();
        assert(files =~= rest.push(files.last()));
        lemma_keys_of_push(rest, files.last(), section, key);
        if key_of(files.last(), section) == key {
            assert(key_of(files[files.len() - 1], section) == key);
        } else {
            lemma_occurs(rest, section, key);
            let k = choose|k: int|
                0 <= k < rest.len() && key_of(#[trigger] rest[k], section) == key;
            assert(files[k] == rest[k]);
        }
    } else {
        assert(keys_of(files, section) =~= Seq::<DiffSelectionKeyView>::empty());
    }
}

proof fn lemma_longest_path(files: Seq<ChangedFileView>)
    ensures
        forall|i: int|
            0 <= i < files.len() ==> (#[trigger] files[i]).relative_path.len() <= longest_path(
                files,
            ),
    decreases files.len(),
{
    if files.len() > 0 {
        lemma_longest_path(files.drop_last());
        assert forall|i: int| 0 <= i < files.len() implies (
        #[trigger] files[i]).relative_path.len() <= longest_path(files) by {
            if i < files.len() - 1 {
                assert(files.drop_last()[i] == files[i]);
            }
        }
    }
}

/// The tree of changed files lists every file exactly once: each key is collected from the tree as
/// often as files have it.
pub proof fn tree_lists_every_file_once(
    files: Seq<ChangedFileView>,
    section: DiffSectionKind,
    key: DiffSelectionKeyView,
)
    requires
        forall|i: int| 0 <= i < files.len() ==> (#[trigger] files[i]).relative_path.len() > 0,
    ensures
        occurrences(file_keys(diff_tree(files), section), key) == occurrences(
            keys_of(files, section),
            key,
        ),
{
    lemma_longest_path(files);
    lemma_tree_count(files, Seq::empty(), longest_path(files) as int, section, key);
}

/// The order of paths is a strict total order.
pub proof fn lemma_path_order(a: Seq<Seq<char>>, b: Seq<Seq<char>>, c: Seq<Seq<char>>)
    ensures
        !path_lt(a, a),
        path_lt(a, b) && path_lt(b, c) ==> path_lt(a, c),
        path_lt(a, b) || a == b || path_lt(b, a),
        !(path_lt(a, b) && path_lt(b, a)),
    decreases a.len() + b.len() + c.len(),
{
    if a.len() > 0 {
        lemma_path_order(
            a.drop_first(),
            if b.len() > 0 {
                b.drop_first()
            } else {
                b
            },
            if c.len() > 0 {
                c.drop_first()
            } else {
                c
            },
        );
        if b.len() > 0 {
            lemma_text_order(
                a[0],
                b[0],
                if c.len() > 0 {
                    c[0]
                } else {
                    b[0]
                },
            );
            if a[0] == b[0] && a.drop_first() == b.drop_first() {
                assert(a =~= seq![a[0]] + a.drop_first());
                assert(b =~= seq![b[0]] + b.drop_first());
            }
        }
    } else if b.len() == 0 {
        assert(a =~= b);
    }
}

/// Files ordered by path.
pub open spec fn files_ordered(files: Seq<ChangedFileView>) -> bool {
    forall|i: int, j: int|
        0 <= i < j < files.len() ==> !path_lt(
            (#[trigger] files[j]).relative_path,
            (#[trigger] files[i]).relative_path,
        )
}

proof fn lemma_insert_file_ordered(files: Seq<ChangedFileView>, file: ChangedFileView)
    requires
        files_ordered(files),
    ensures
        files_ordered(insert_file(files, file)),
        forall|i: int|
            0 <= i < insert_file(files, file).len() ==> #[trigger] insert_file(files, file)[i]
                == file || files.contains(insert_file(files, file)[i]),
    decreases files.len(),
{
    let out = insert_file(files, file);
    if files.len() == 0 || !path_lt(file.relative_path, files.last().relative_path) {
        assert forall|i: int, j: int| 0 <= i < j < out.len() implies !path_lt(
            (#[trigger] out[j]).relative_path,
            (#[trigger] out[i]).relative_path,
        ) by {
            if j == files.len() {
                let last = files[files.len() - 1].relative_path;
                if i < files.len() - 1 {
                    assert(!path_lt(last, files[i].relative_path));
                }
                lemma_path_order(file.relative_path, files[i].relative_path, last);
                lemma_path_order(last, files[i].relative_path, last);
            }
        }
    } else {
        let rest = files.drop_last();
        let last = files[files.len() - 1];
        assert forall|i: int, j: int| 0 <= i < j < rest.len() implies !path_lt(
            (#[trigger] rest[j]).relative_path,
            (#[trigger] rest[i]).relative_path,
        ) by {
            assert(!path_lt(files[j].relative_path, files[i].relative_path));
        }
        lemma_insert_file_ordered(rest, file);
        let inner = insert_file(rest, file);
        assert forall|i: int, j: int| 0 <= i < j < out.len() implies !path_lt(
            (#[trigger] out[j]).relative_path,
            (#[trigger] out[i]).relative_path,
        ) by {
            if j < inner.len() {
                assert(out[i] == inner[i] && out[j] == inner[j]);
            } else {
                assert(out[i] == inner[i]);
                if inner[i] == file {
                    lemma_path_order(file.relative_path, last.relative_path, file.relative_path);
                } else {
                    let k = choose|k: int| 0 <= k < rest.len() && rest[k] == inner[i];
                    assert(!path_lt(files[files.len() - 1].relative_path, files[k].relative_path));
                }
            }
        }
        assert forall|i: int| 0 <= i < out.len() implies #[trigger] out[i] == file
            || files.contains(out[i]) by {
            if i < inner.len() {
                if inner[i] != file {
                    let k = choose|k: int| 0 <= k < rest.len() && rest[k] == inner[i];
                    assert(files[k] == rest[k]);
                }
            } else {
                assert(files[files.len() - 1] == out[i]);
            }
        }
    }
}

proof fn lemma_direct_files_ordered(files: Seq<ChangedFileView>, depth: int)
    ensures
        files_ordered(direct_files(files, depth)),
    decreases files.len(),
{
    if files.len() > 0 {
        lemma_direct_files_ordered(files.drop_last(), depth);
        if files.last().relative_path.len() == depth + 1 {
            lemma_insert_file_ordered(direct_files(files.drop_last(), depth), files.last());
        }
    }
}

/// At every level of the tree the directories come before the files, the directories in the
/// strict order of their names and the files in the order of their paths.
pub proof fn tree_levels_are_ordered(
    files: Seq<ChangedFileView>,
    base: Seq<Seq<char>>,
    limit: int,
    i: int,
    j: int,
)
    requires
        0 <= i < j < tree(files, base, limit).len(),
    ensures
        ({
            let first = tree(files, base, limit)[i];
            let second = tree(files, base, limit)[j];
            &&& second.file is None ==> first.file is None && text_lt(first.name, second.name)
            &&& first.file is Some ==> second.file is Some && !path_lt(second.path, first.path)
        }),
{
    let depth = base.len() as int;
    let names = directory_names(files, depth);
    let direct = direct_files(files, depth);
    lemma_directory_names(files, depth);
    lemma_direct_files_ordered(files, depth);
    if j < names.len() {
        assert(text_lt(names[i], names[j]));
    } else if i >= names.len() {
        assert(!path_lt(
            direct[j - names.len()].relative_path,
            direct[i - names.len()].relative_path,
        ));
    }
}

/// A directory name comes from a file that lies in the directory.
proof fn lemma_directory_name_origin(files: Seq<ChangedFileView>, depth: int, name: Seq<char>)
    requires
        directory_names(files, depth).contains(name),
    ensures
        exists|i: int| 0 <= i < files.len() && lies_in(#[trigger] files[i], depth, name),
    decreases files.len(),
{
    let rest = files.drop_last();
    let names = directory_names(rest, depth);
    let path = files.last().relative_path;
    lemma_directory_names(rest, depth);
    if path.len() > depth + 1 {
        lemma_insert_name(names, path[depth]);
    }
    if path.len() > depth + 1 && path[depth] == name {
        assert(lies_in(files[files.len() - 1], depth, name));
    } else {
        assert(names.contains(name));
        lemma_directory_name_origin(rest, depth, name);
        let i = choose|i: int| 0 <= i < rest.len() && lies_in(#[trigger] rest[i], depth, name);
        assert(lies_in(files[i], depth, name));
    }
}

/// The files below a directory are those of the list that lie in it.
proof fn lemma_files_in_contains(
    files: Seq<ChangedFileView>,
    depth: int,
    name: Seq<char>,
    file: ChangedFileView,
)
    ensures
        files_in(files, depth, name).contains(file) == (files.contains(file) && lies_in(
            file,
            depth,
            name,
        )),
{
    broadcast use vstd::seq_lib::group_filter_ensures;

    let keep = |file: ChangedFileView| lies_in(file, depth, name);
    let kept = files.filter(keep);
    if kept.contains(file) {
        let i = choose|i: int| 0 <= i < kept.len() && kept[i] == file;
        lemma_filtered_from(files, keep, i);
    }
    if files.contains(file) && lies_in(file, depth, name) {
        let i = choose|i: int| 0 <= i < files.len() && files[i] == file;
        assert(keep(files[i]));
        assert(kept.contains(files[i]));
    }
}

/// The paths of the files begin with the path of a directory and lead below it.
spec fn files_below(files: Seq<ChangedFileView>, base: Seq<Seq<char>>) -> bool {
    forall|i: int|
        #![trigger files[i]]
        0 <= i < files.len() ==> base.len() < files[i].relative_path.len()
            && files[i].relative_path.take(base.len() as int) == base
}

/// The nodes stand right below a directory under the names that their paths end with. A file has
/// its own path and no children. A directory is not empty, and what it holds stands below it.
pub open spec fn nested(nodes: Seq<NodeView>, base: Seq<Seq<char>>) -> bool
    decreases nodes,
{
    forall|i: int|
        #![trigger nodes[i]]
        0 <= i < nodes.len() ==> {
            &&& nodes[i].path == base.push(nodes[i].name)
            &&& match nodes[i].file {
                Some(file) => file.relative_path == nodes[i].path && nodes[i].children.len() == 0,
                None => nodes[i].children.len() > 0 && nested(nodes[i].children, nodes[i].path),
            }
        }
}

proof fn lemma_direct_files_from(files: Seq<ChangedFileView>, depth: int)
    ensures
        forall|file: ChangedFileView| #[trigger]
            direct_files(files, depth).contains(file) == (files.contains(file)
                && file.relative_path.len() == depth + 1),
    decreases files.len(),
{
    if files.len() > 0 {
        let rest = files.drop_last();
        let last = files.last();
        lemma_direct_files_from(rest, depth);
        assert(files =~= rest.push(last));
        assert forall|file: ChangedFileView| #[trigger]
            direct_files(files, depth).contains(file) == (files.contains(file)
                && file.relative_path.len() == depth + 1) by {
            lemma_pushed(rest, last, file);
            if last.relative_path.len() == depth + 1 {
                lemma_insert_file_contains(direct_files(rest, depth), last, file);
            }
            assert(direct_files(rest, depth).contains(file) == (rest.contains(file)
                && file.relative_path.len() == depth + 1));
        }
    }
}

proof fn lemma_pushed(files: Seq<ChangedFileView>, file: ChangedFileView, other: ChangedFileView)
    ensures
        files.push(file).contains(other) == (files.contains(other) || other == file),
{
    let out = files.push(file);
    if files.contains(other) {
        let k = choose|k: int| 0 <= k < files.len() && files[k] == other;
        assert(out[k] == other);
    }
    assert(out[files.len() as int] == file);
    if out.contains(other) && other != file {
        let k = choose|k: int| 0 <= k < out.len() && out[k] == other;
        assert(files[k] == other);
    }
}

proof fn lemma_insert_file_contains(
    files: Seq<ChangedFileView>,
    file: ChangedFileView,
    other: ChangedFileView,
)
    ensures
        insert_file(files, file).contains(other) == (files.contains(other) || other == file),
    decreases files.len(),
{
    if files.len() == 0 || !path_lt(file.relative_path, files.last().relative_path) {
        lemma_pushed(files, file, other);
    } else {
        let rest = files.drop_last();
        lemma_insert_file_contains(rest, file, other);
        lemma_pushed(insert_file(rest, file), files.last(), other);
        lemma_pushed(rest, files.last(), other);
        assert(files =~= rest.push(files.last()));
    }
}

/// The files below a directory lie below it with their paths.
proof fn lemma_files_in_below(
    files: Seq<ChangedFileView>,
    base: Seq<Seq<char>>,
    limit: int,
    name: Seq<char>,
)
    requires
        files_below(files, base),
        paths_lead(files, base.len() as int, limit),
    ensures
        files_below(files_in(files, base.len() as int, name), base.push(name)),
        paths_lead(files_in(files, base.len() as int, name), base.len() as int + 1, limit),
{
    let depth = base.len() as int;
    let inside = files_in(files, depth, name);
    assert forall|i: int| #![trigger inside[i]] 0 <= i < inside.len() implies depth + 1
        < inside[i].relative_path.len() <= limit && inside[i].relative_path.take(depth + 1)
        == base.push(name) by {
        assert(inside.contains(inside[i]));
        lemma_files_in_contains(files, depth, name, inside[i]);
        let k = choose|k: int| 0 <= k < files.len() && files[k] == inside[i];
        assert(files[k].relative_path.take(depth) == base);
        let path = inside[i].relative_path;
        assert(path.take(depth + 1) =~= path.take(depth).push(path[depth]));
    }
}

proof fn lemma_tree_nested(files: Seq<ChangedFileView>, base: Seq<Seq<char>>, limit: int)
    requires
        files_below(files, base),
        paths_lead(files, base.len() as int, limit),
    ensures
        nested(tree(files, base, limit), base),
        files.len() > 0 ==> tree(files, base, limit).len() > 0,
    decreases limit - base.len(),
{
    let depth = base.len() as int;
    let nodes = tree(files, base, limit);
    let names = directory_names(files, depth);
    let direct = direct_files(files, depth);
    lemma_directory_names(files, depth);
    lemma_direct_files_from(files, depth);
    if files.len() > 0 {
        assert(depth < files[0].relative_path.len() <= limit);
        if files[0].relative_path.len() > depth + 1 {
            assert(names.contains(files[0].relative_path[depth]));
        } else {
            assert(direct.contains(files[0]));
        }
    }
    if depth < limit {
        assert forall|i: int| #![trigger nodes[i]] 0 <= i < nodes.len() implies {
            &&& nodes[i].path == base.push(nodes[i].name)
            &&& match nodes[i].file {
                Some(file) => file.relative_path == nodes[i].path && nodes[i].children.len() == 0,
                None => nodes[i].children.len() > 0 && nested(nodes[i].children, nodes[i].path),
            }
        } by {
            if i < names.len() {
                let name = names[i];
                assert(names.contains(name));
                lemma_directory_name_origin(files, depth, name);
                let k = choose|k: int|
                    0 <= k < files.len() && lies_in(#[trigger] files[k], depth, name);
                lemma_files_in_contains(files, depth, name, files[k]);
                assert(files.contains(files[k]));
                lemma_files_in_below(files, base, limit, name);
                lemma_tree_nested(files_in(files, depth, name), base.push(name), limit);
            } else {
                let file = direct[i - names.len()];
                assert(direct.contains(file));
                let k = choose|k: int| 0 <= k < files.len() && files[k] == file;
                assert(files[k].relative_path.take(depth) == base);
                let path = file.relative_path;
                assert(path =~= path.take(depth).push(path.last()));
            }
        }
    }
}

/// Every file of the tree stands under the directories of its path, and no directory is empty.
pub proof fn tree_nests_files_under_their_directories(files: Seq<ChangedFileView>)
    requires
        forall|i: int| 0 <= i < files.len() ==> (#[trigger] files[i]).relative_path.len() > 0,
    ensures
        nested(diff_tree(files), Seq::empty()),
{
    lemma_longest_path(files);
    assert forall|i: int| #![trigger files[i]] 0 <= i < files.len() implies 0
        < files[i].relative_path.len() && files[i].relative_path.take(0) == Seq::<
        Seq<char>,
    >::empty() by {
        assert(files[i].relative_path.take(0) =~= Seq::<Seq<char>>::empty());
    }
    lemma_tree_nested(files, Seq::empty(), longest_path(files) as int);
}

/// No two files have the same path.
pub open spec fn paths_distinct(files: Seq<ChangedFileView>) -> bool {
    forall|i: int, j: int|
        0 <= i < j < files.len() ==> (#[trigger] files[i]).relative_path != (
        #[trigger] files[j]).relative_path
}

/// The lists hold the same files.
spec fn same_files(a: Seq<ChangedFileView>, b: Seq<ChangedFileView>) -> bool {
    forall|file: ChangedFileView| #[trigger] a.contains(file) == b.contains(file)
}

/// There is one way to put names in strict order.
pub proof fn lemma_same_names(a: Seq<Seq<char>>, b: Seq<Seq<char>>)
    requires
        names_ordered(a),
        names_ordered(b),
        forall|name: Seq<char>| #[trigger] a.contains(name) == b.contains(name),
    ensures
        a == b,
    decreases a.len(),
{
    if a.len() == 0 {
        if b.len() > 0 {
            assert(b.contains(b[0]));
            assert(a.contains(b[0]));
        }
        assert(a =~= b);
    } else {
        let x = a[a.len() - 1];
        assert(a.contains(x));
        assert(b.contains(x));
        let y = b[b.len() - 1];
        assert(b.contains(y));
        assert(a.contains(y));
        let i = choose|i: int| 0 <= i < a.len() && a[i] == y;
        let j = choose|j: int| 0 <= j < b.len() && b[j] == x;
        lemma_text_order(x, y, x);
        assert(x == y) by {
            if i < a.len() - 1 && j < b.len() - 1 {
                assert(text_lt(a[i], a[a.len() - 1]));
                assert(text_lt(b[j], b[b.len() - 1]));
            }
        }
        let p = a.drop_last();
        let q = b.drop_last();
        lemma_names_shorter(a);
        lemma_names_shorter(b);
        assert forall|name: Seq<char>| #[trigger] p.contains(name) == q.contains(name) by {
            assert(a.contains(name) == b.contains(name));
        }
        lemma_same_names(p, q);
        assert(a =~= p.push(x));
        assert(b =~= q.push(x));
    }
}

proof fn lemma_names_shorter(names: Seq<Seq<char>>)
    requires
        names_ordered(names),
        names.len() > 0,
    ensures
        names_ordered(names.drop_last()),
        forall|name: Seq<char>| #[trigger]
            names.drop_last().contains(name) == (names.contains(name) && name != names.last()),
{
    let rest = names.drop_last();
    assert forall|i: int, j: int| 0 <= i < j < rest.len() implies text_lt(
        #[trigger] rest[i],
        #[trigger] rest[j],
    ) by {
        assert(text_lt(names[i], names[j]));
    }
    assert forall|name: Seq<char>| #[trigger]
        rest.contains(name) == (names.contains(name) && name != names.last()) by {
        if rest.contains(name) {
            let k = choose|k: int| 0 <= k < rest.len() && rest[k] == name;
            assert(names[k] == name);
            assert(text_lt(names[k], names[names.len() - 1]));
            lemma_text_order(name, name, name);
        }
        if names.contains(name) && name != names.last() {
            let k = choose|k: int| 0 <= k < names.len() && names[k] == name;
            assert(rest[k] == name);
        }
    }
}

/// There is one way to put files with distinct paths in the order of their paths.
proof fn lemma_same_direct(a: Seq<ChangedFileView>, b: Seq<ChangedFileView>)
    requires
        files_ordered(a),
        files_ordered(b),
        paths_distinct(a),
        paths_distinct(b),
        same_files(a, b),
    ensures
        a == b,
    decreases a.len(),
{
    if a.len() == 0 {
        if b.len() > 0 {
            assert(b.contains(b[0]));
            assert(a.contains(b[0]));
        }
        assert(a =~= b);
    } else {
        let x = a[a.len() - 1];
        assert(a.contains(x));
        assert(b.contains(x));
        let y = b[b.len() - 1];
        assert(b.contains(y));
        assert(a.contains(y));
        let i = choose|i: int| 0 <= i < a.len() && a[i] == y;
        let j = choose|j: int| 0 <= j < b.len() && b[j] == x;
        assert(x == y) by {
            if i < a.len() - 1 {
                assert(!path_lt(a[a.len() - 1].relative_path, a[i].relative_path));
                assert(a[i].relative_path != a[a.len() - 1].relative_path);
                if j < b.len() - 1 {
                    assert(!path_lt(b[b.len() - 1].relative_path, b[j].relative_path));
                }
                lemma_path_order(x.relative_path, y.relative_path, x.relative_path);
            }
        }
        let p = a.drop_last();
        let q = b.drop_last();
        lemma_files_shorter(a);
        lemma_files_shorter(b);
        assert forall|file: ChangedFileView| #[trigger] p.contains(file) == q.contains(file) by {
            assert(a.contains(file) == b.contains(file));
        }
        lemma_same_direct(p, q);
        assert(a =~= p.push(x));
        assert(b =~= q.push(x));
    }
}

proof fn lemma_files_shorter(files: Seq<ChangedFileView>)
    requires
        files_ordered(files),
        paths_distinct(files),
        files.len() > 0,
    ensures
        files_ordered(files.drop_last()),
        paths_distinct(files.drop_last()),
        forall|file: ChangedFileView| #[trigger]
            files.drop_last().contains(file) == (files.contains(file) && file != files.last()),
{
    let rest = files.drop_last();
    assert forall|i: int, j: int| 0 <= i < j < rest.len() implies !path_lt(
        (#[trigger] rest[j]).relative_path,
        (#[trigger] rest[i]).relative_path,
    ) && rest[i].relative_path != rest[j].relative_path by {
        assert(!path_lt(files[j].relative_path, files[i].relative_path));
        assert(files[i].relative_path != files[j].relative_path);
    }
    assert forall|file: ChangedFileView| #[trigger]
        rest.contains(file) == (files.contains(file) && file != files.last()) by {
        if rest.contains(file) {
            let k = choose|k: int| 0 <= k < rest.len() && rest[k] == file;
            assert(files[k] == file);
            assert(files[k].relative_path != files[files.len() - 1].relative_path);
        }
        if files.contains(file) && file != files.last() {
            let k = choose|k: int| 0 <= k < files.len() && files[k] == file;
            assert(rest[k] == file);
        }
    }
}

/// Putting a file with a path of its own in order keeps the paths distinct.
proof fn lemma_insert_file_distinct(files: Seq<ChangedFileView>, file: ChangedFileView)
    requires
        paths_distinct(files),
        forall|i: int|
            0 <= i < files.len() ==> (#[trigger] files[i]).relative_path != file.relative_path,
    ensures
        paths_distinct(insert_file(files, file)),
    decreases files.len(),
{
    if files.len() == 0 || !path_lt(file.relative_path, files.last().relative_path) {
    } else {
        let rest = files.drop_last();
        let last = files[files.len() - 1];
        assert forall|i: int, j: int| 0 <= i < j < rest.len() implies (
        #[trigger] rest[i]).relative_path != (#[trigger] rest[j]).relative_path by {
            assert(files[i].relative_path != files[j].relative_path);
        }
        assert forall|i: int| 0 <= i < rest.len() implies (#[trigger] rest[i]).relative_path
            != file.relative_path by {
            assert(files[i].relative_path != file.relative_path);
        }
        lemma_insert_file_distinct(rest, file);
        let inner = insert_file(rest, file);
        let out = insert_file(files, file);
        assert forall|i: int, j: int| 0 <= i < j < out.len() implies (
        #[trigger] out[i]).relative_path != (#[trigger] out[j]).relative_path by {
            if j < inner.len() {
                assert(inner[i].relative_path != inner[j].relative_path);
            } else {
                assert(inner.contains(inner[i]));
                lemma_insert_file_contains(rest, file, inner[i]);
                if inner[i] != file {
                    let k = choose|k: int| 0 <= k < rest.len() && rest[k] == inner[i];
                    assert(files[k].relative_path != files[files.len() - 1].relative_path);
                }
            }
        }
    }
}

proof fn lemma_direct_distinct(files: Seq<ChangedFileView>, depth: int)
    requires
        paths_distinct(files),
    ensures
        paths_distinct(direct_files(files, depth)),
    decreases files.len(),
{
    if files.len() > 0 {
        let rest = files.drop_last();
        assert forall|i: int, j: int| 0 <= i < j < rest.len() implies (
        #[trigger] rest[i]).relative_path != (#[trigger] rest[j]).relative_path by {
            assert(files[i].relative_path != files[j].relative_path);
        }
        lemma_direct_distinct(rest, depth);
        lemma_direct_files_from(rest, depth);
        let before = direct_files(rest, depth);
        if files.last().relative_path.len() == depth + 1 {
            assert forall|i: int| 0 <= i < before.len() implies (
            #[trigger] before[i]).relative_path != files.last().relative_path by {
                assert(before.contains(before[i]));
                let k = choose|k: int| 0 <= k < rest.len() && rest[k] == before[i];
                assert(files[k].relative_path != files[files.len() - 1].relative_path);
            }
            lemma_insert_file_distinct(before, files.last());
        }
    }
}

proof fn lemma_files_in_distinct(files: Seq<ChangedFileView>, depth: int, name: Seq<char>)
    requires
        paths_distinct(files),
    ensures
        paths_distinct(files_in(files, depth, name)),
    decreases files.len(),
{
    broadcast use vstd::seq_lib::group_filter_ensures;

    let keep = |file: ChangedFileView| lies_in(file, depth, name);
    if files.len() == 0 {
        assert(files.filter(keep) =~= Seq::<ChangedFileView>::empty());
    } else {
        let rest = files.drop_last();
        assert forall|i: int, j: int| 0 <= i < j < rest.len() implies (
        #[trigger] rest[i]).relative_path != (#[trigger] rest[j]).relative_path by {
            assert(files[i].relative_path != files[j].relative_path);
        }
        lemma_files_in_distinct(rest, depth, name);
        assert(files =~= rest.push(files.last()));
        rest.lemma_filter_push(files.last(), keep);
        let before = rest.filter(keep);
        let out = files.filter(keep);
        assert forall|i: int, j: int| 0 <= i < j < out.len() implies (
        #[trigger] out[i]).relative_path != (#[trigger] out[j]).relative_path by {
            if j < before.len() {
                assert(before[i].relative_path != before[j].relative_path);
            } else {
                lemma_filtered_from(rest, keep, i);
                let k = choose|k: int| 0 <= k < rest.len() && rest[k] == before[i];
                assert(files[k].relative_path != files[files.len() - 1].relative_path);
            }
        }
    }
}

/// Lists of the same files lie in the same directories.
proof fn lemma_same_directories(a: Seq<ChangedFileView>, b: Seq<ChangedFileView>, depth: int)
    requires
        same_files(a, b),
    ensures
        directory_names(a, depth) == directory_names(b, depth),
{
    let x = directory_names(a, depth);
    let y = directory_names(b, depth);
    lemma_directory_names(a, depth);
    lemma_directory_names(b, depth);
    assert forall|name: Seq<char>| #[trigger] x.contains(name) == y.contains(name) by {
        if x.contains(name) {
            lemma_directory_name_origin(a, depth, name);
            let i = choose|i: int| 0 <= i < a.len() && lies_in(#[trigger] a[i], depth, name);
            assert(a.contains(a[i]));
            assert(b.contains(a[i]));
            let k = choose|k: int| 0 <= k < b.len() && b[k] == a[i];
            assert(y.contains(b[k].relative_path[depth]));
        }
        if y.contains(name) {
            lemma_directory_name_origin(b, depth, name);
            let i = choose|i: int| 0 <= i < b.len() && lies_in(#[trigger] b[i], depth, name);
            assert(b.contains(b[i]));
            assert(a.contains(b[i]));
            let k = choose|k: int| 0 <= k < a.len() && a[k] == b[i];
            assert(x.contains(a[k].relative_path[depth]));
        }
    }
    lemma_same_names(x, y);
}

proof fn lemma_same_tree(
    a: Seq<ChangedFileView>,
    b: Seq<ChangedFileView>,
    base: Seq<Seq<char>>,
    limit: int,
)
    requires
        same_files(a, b),
        paths_distinct(a),
        paths_distinct(b),
    ensures
        tree(a, base, limit) == tree(b, base, limit),
    decreases limit - base.len(),
{
    if base.len() < limit {
        let depth = base.len() as int;
        let names = directory_names(a, depth);
        lemma_same_directories(a, b, depth);
        let x = direct_files(a, depth);
        let y = direct_files(b, depth);
        lemma_direct_files_from(a, depth);
        lemma_direct_files_from(b, depth);
        lemma_direct_files_ordered(a, depth);
        lemma_direct_files_ordered(b, depth);
        lemma_direct_distinct(a, depth);
        lemma_direct_distinct(b, depth);
        assert forall|file: ChangedFileView| #[trigger] x.contains(file) == y.contains(file) by {
            assert(a.contains(file) == b.contains(file));
        }
        lemma_same_direct(x, y);
        let p = tree(a, base, limit);
        let q = tree(b, base, limit);
        assert forall|i: int| 0 <= i < p.len() implies #[trigger] p[i] == q[i] by {
            if i < names.len() {
                let name = names[i];
                let inside_a = files_in(a, depth, name);
                let inside_b = files_in(b, depth, name);
                assert forall|file: ChangedFileView| #[trigger]
                    inside_a.contains(file) == inside_b.contains(file) by {
                    lemma_files_in_contains(a, depth, name, file);
                    lemma_files_in_contains(b, depth, name, file);
                    assert(a.contains(file) == b.contains(file));
                }
                lemma_files_in_distinct(a, depth, name);
                lemma_files_in_distinct(b, depth, name);
                lemma_same_tree(inside_a, inside_b, base.push(name), limit);
            }
        }
        assert(p =~= q);
    }
}

proof fn lemma_longest_reached(files: Seq<ChangedFileView>)
    ensures
        longest_path(files) > 0 ==> exists|i: int|
            0 <= i < files.len() && (#[trigger] files[i]).relative_path.len() == longest_path(
                files,
            ),
    decreases files.len(),
{
    if files.len() > 0 {
        let rest = files.drop_last();
        lemma_longest_reached(rest);
        if files.last().relative_path.len() >= longest_path(rest) {
            assert(files[files.len() - 1].relative_path.len() == longest_path(files));
        } else {
            let i = choose|i: int|
                0 <= i < rest.len() && (#[trigger] rest[i]).relative_path.len() == longest_path(
                    rest,
                );
            assert(files[i].relative_path.len() == longest_path(files));
        }
    }
}

proof fn lemma_longest_at_most(a: Seq<ChangedFileView>, b: Seq<ChangedFileView>)
    requires
        same_files(a, b),
    ensures
        longest_path(a) <= longest_path(b),
{
    lemma_longest_reached(a);
    lemma_longest_path(b);
    if longest_path(a) > 0 {
        let i = choose|i: int|
            0 <= i < a.len() && (#[trigger] a[i]).relative_path.len() == longest_path(a);
        assert(a.contains(a[i]));
        assert(b.contains(a[i]));
        let k = choose|k: int| 0 <= k < b.len() && b[k] == a[i];
        assert(b[k].relative_path.len() <= longest_path(b));
    }
}

/// A list in another order holds the same files, with paths as distinct as before.
proof fn lemma_reordered(a: Seq<ChangedFileView>, b: Seq<ChangedFileView>)
    requires
        paths_distinct(a),
        a.to_multiset() == b.to_multiset(),
    ensures
        same_files(a, b),
        paths_distinct(b),
{
    a.to_multiset_ensures();
    b.to_multiset_ensures();
    assert forall|file: ChangedFileView| #[trigger] a.contains(file) == b.contains(file) by {
        assert(a.contains(file) <==> a.to_multiset().count(file) > 0);
        assert(b.contains(file) <==> b.to_multiset().count(file) > 0);
    }
    assert(a.no_duplicates()) by {
        assert forall|i: int, j: int| 0 <= i < a.len() && 0 <= j < a.len() && i != j implies a[i]
            != a[j] by {
            if i < j {
                assert(a[i].relative_path != a[j].relative_path);
            } else {
                assert(a[j].relative_path != a[i].relative_path);
            }
        }
    }
    a.lemma_multiset_has_no_duplicates();
    b.lemma_multiset_has_no_duplicates_conv();
    assert forall|i: int, j: int| 0 <= i < j < b.len() implies (#[trigger] b[i]).relative_path != (
    #[trigger] b[j]).relative_path by {
        assert(b[i] != b[j]);
        assert(b.contains(b[i]) && b.contains(b[j]));
        assert(a.contains(b[i]) && a.contains(b[j]));
        let k = choose|k: int| 0 <= k < a.len() && a[k] == b[i];
        let m = choose|m: int| 0 <= m < a.len() && a[m] == b[j];
        if k < m {
            assert(a[k].relative_path != a[m].relative_path);
        } else {
            assert(a[m].relative_path != a[k].relative_path);
        }
    }
}

/// The tree of files with distinct paths is the same for every order of the files.
pub proof fn tree_is_the_same_for_every_order(a: Seq<ChangedFileView>, b: Seq<ChangedFileView>)
    requires
        paths_distinct(a),
        a.to_multiset() == b.to_multiset(),
    ensures
        diff_tree(a) == diff_tree(b),
{
    lemma_reordered(a, b);
    lemma_longest_at_most(a, b);
    assert(same_files(b, a)) by {
        assert forall|file: ChangedFileView| #[trigger] b.contains(file) == a.contains(file) by {
            assert(a.contains(file) == b.contains(file));
        }
    }
    lemma_longest_at_most(b, a);
    lemma_same_tree(a, b, Seq::empty(), longest_path(a) as int);
}

/// What occurs in a sequence is in it, and what is in it occurs.
pub proof fn lemma_occurs_contains<A>(items: Seq<A>, value: A)
    ensures
        (occurrences(items, value) > 0) == items.contains(value),
    decreases items.len(),
{
    if items.len() > 0 {
        let rest = items.drop_last();
        lemma_occurs_contains(rest, value);
        if rest.contains(value) {
            let k = choose|k: int| 0 <= k < rest.len() && rest[k] == value;
            assert(items[k] == value);
        }
        if items.last() == value {
            assert(items[items.len() - 1] == value);
        } else if items.contains(value) {
            let k = choose|k: int| 0 <= k < items.len() && items[k] == value;
            assert(rest[k] == value);
        }
    }
}

/// Names are ordered as in a dictionary: by the first character in which they differ, and a name
/// comes before the names that go on from it.
pub proof fn names_are_ordered_as_in_a_dictionary(
    common: Seq<char>,
    a: char,
    b: char,
    rest: Seq<char>,
    other: Seq<char>,
)
    ensures
        a < b ==> text_lt(common + seq![a] + rest, common + seq![b] + other),
        b < a ==> !text_lt(common + seq![a] + rest, common + seq![b] + other),
        text_lt(common, common + seq![b] + other),
        !text_lt(common + seq![a] + rest, common),
        !text_lt(common, common),
    decreases common.len(),
{
    let first = common + seq![a] + rest;
    let second = common + seq![b] + other;
    if common.len() > 0 {
        let tail = common.drop_first();
        names_are_ordered_as_in_a_dictionary(tail, a, b, rest, other);
        assert(first.drop_first() =~= tail + seq![a] + rest);
        assert(second.drop_first() =~= tail + seq![b] + other);
        assert(first[0] == common[0] && second[0] == common[0]);
    } else {
        assert(first[0] == a);
        assert(second[0] == b);
    }
}

/// Paths are ordered by the first part in which they differ, and a path comes before those that lie
/// below it.
pub proof fn paths_are_ordered_part_by_part(
    common: Seq<Seq<char>>,
    a: Seq<char>,
    b: Seq<char>,
    rest: Seq<Seq<char>>,
    other: Seq<Seq<char>>,
)
    requires
        a != b,
    ensures
        path_lt(common + seq![a] + rest, common + seq![b] + other) == text_lt(a, b),
        path_lt(common, common + seq![b] + other),
        !path_lt(common + seq![a] + rest, common),
        !path_lt(common, common),
    decreases common.len(),
{
    let first = common + seq![a] + rest;
    let second = common + seq![b] + other;
    if common.len() > 0 {
        let tail = common.drop_first();
        paths_are_ordered_part_by_part(tail, a, b, rest, other);
        assert(first.drop_first() =~= tail + seq![a] + rest);
        assert(second.drop_first() =~= tail + seq![b] + other);
        assert(first[0] == common[0] && second[0] == common[0]);
    } else {
        assert(first[0] == a);
        assert(second[0] == b);
    }
}

} // verus!
