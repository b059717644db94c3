//! Files, diffs and selections as plain values.

use crate::strings;
use vstd::prelude::*;

verus! {

/// A path relative to a repository: the names from the outermost directory to the file.
#[derive(Debug, PartialEq, Eq)]
pub struct RelativePath {
    pub components: Vec<String>,
}

impl View for RelativePath {
    type V = Seq<Seq<char>>;

    open spec fn view(&self) -> Seq<Seq<char>> {
        strings::views(self.components@)
    }
}

/// A part of a slash-separated path that names something: neither empty nor a single dot.
pub open spec fn names_something(part: Seq<char>) -> bool {
    part.len() > 0 && part != seq!['.']
}

/// The components of a path written with slashes.
pub open spec fn path_components(path: Seq<char>) -> Seq<Seq<char>> {
    strings::split(path, '/').filter(|part: Seq<char>| names_something(part))
}

/// The components written with slashes between them.
pub open spec fn path_text(components: Seq<Seq<char>>) -> Seq<char> {
    strings::joined(components, seq!['/'])
}

/// Whether a part of a path names something.
fn part_names_something(part: &str) -> (names: bool)
    ensures
        names == names_something(part@),
{
    proof {
        reveal_strlit(".");
        assert("."@ =~= seq!['.']);
    }
    !part.is_empty() && !strings::same_text(part, ".")
}

impl RelativePath {
    /// Reads a path written with slashes. Empty parts and parts that are a single dot are
    /// skipped.
    pub fn parse(path: &str) -> (result: RelativePath)
        ensures
            result@ == path_components(path@),
    {
        broadcast use vstd::seq_lib::group_filter_ensures;

        let parts = strings::split_on(path, '/');
        let ghost keep = |part: Seq<char>| names_something(part);
        let mut components: Vec<String> = Vec::new();
        let mut i: usize = 0;
        assert(strings::views(components@) =~= strings::views(parts@).take(0).filter(keep));
        while i < parts.len()
            invariant
                i <= parts@.len(),
                keep == (|part: Seq<char>| names_something(part)),
                strings::views(components@) == strings::views(parts@).take(i as int).filter(keep),
            decreases parts@.len() - i,
        {
            let ghost before = strings::views(components@);
            let names = part_names_something(parts[i].as_str());
            if names {
                components.push(parts[i].clone());
            }
            proof {
                let all = strings::views(parts@);
                assert(all.take(i + 1) =~= all.take(i as int).push(parts@[i as int]@));
                all.take(i as int).lemma_filter_push(parts@[i as int]@, keep);
                if names {
                    assert(strings::views(components@) =~= before.push(parts@[i as int]@));
                }
            }
            i = i + 1;
        }
        assert(strings::views(parts@).take(i as int) =~= strings::views(parts@));
        RelativePath { components }
    }

    /// The path written with slashes.
    pub fn display(&self) -> (text: String)
        ensures
            text@ == path_text(self@),
    {
        proof {
            reveal_strlit("/");
            assert("/"@ =~= seq!['/']);
        }
        strings::join(&self.components, "/")
    }

    /// Whether two paths have the same components.
    pub fn same_path(&self, other: &RelativePath) -> (same: bool)
        ensures
            same == (self@ == other@),
    {
        let len = self.components.len();
        if len != other.components.len() {
            assert(self@.len() != other@.len());
            return false;
        }
        let mut i: usize = 0;
        while i < len
            invariant
                len == self.components@.len(),
                len == other.components@.len(),
                i <= len,
                forall|j: int| 0 <= j < i ==> self@[j] == other@[j],
            decreases len - i,
        {
            if !strings::same_text(self.components[i].as_str(), other.components[i].as_str()) {
                assert(self@[i as int] != other@[i as int]);
                return false;
            }
            i = i + 1;
        }
        assert(self@ =~= other@);
        true
    }
}

impl Clone for RelativePath {
    fn clone(&self) -> (result: Self)
        ensures
            result@ == self@,
    {
        RelativePath { components: strings::copy_strings(&self.components) }
    }
}

/// The state of a changed file.
#[derive(Clone, Copy, Debug, PartialEq, Eq, Structural)]
pub enum GitFileStatus {
    Modified,
    Added,
    Deleted,
    Renamed,
    Typechange,
    Untracked,
    Conflicted,
}

/// The section of the working tree that a changed file is listed in.
#[derive(Clone, Copy, Debug, PartialEq, Eq, Structural)]
pub enum DiffSectionKind {
    Conflicted,
    Staged,
    Unstaged,
}

/// A changed file.
#[derive(Debug, PartialEq, Eq)]
pub struct ChangedFile {
    pub relative_path: RelativePath,
    pub status: GitFileStatus,
    pub is_binary: bool,
    pub insertions: usize,
    pub deletions: usize,
}

/// What a changed file is, with its path as a sequence of names.
pub struct ChangedFileView {
    pub relative_path: Seq<Seq<char>>,
    pub status: GitFileStatus,
    pub is_binary: bool,
    pub insertions: usize,
    pub deletions: usize,
}

impl View for ChangedFile {
    type V = ChangedFileView;

    open spec fn view(&self) -> ChangedFileView {
        ChangedFileView {
            relative_path: self.relative_path@,
            status: self.status,
            is_binary: self.is_binary,
            insertions: self.insertions,
            deletions: self.deletions,
        }
    }
}

impl Clone for ChangedFile {
    fn clone(&self) -> (result: Self)
        ensures
            result@ == self@,
    {
        ChangedFile {
            relative_path: self.relative_path.clone(),
            status: self.status,
            is_binary: self.is_binary,
            insertions: self.insertions,
            deletions: self.deletions,
        }
    }
}

/// Names a changed file by its section and path.
#[derive(Debug, PartialEq, Eq)]
pub struct DiffSelectionKey {
    pub section: DiffSectionKind,
    pub relative_path: RelativePath,
}

/// A section and the names of a path.
pub struct DiffSelectionKeyView {
    pub section: DiffSectionKind,
    pub relative_path: Seq<Seq<char>>,
}

impl View for DiffSelectionKey {
    type V = DiffSelectionKeyView;

    open spec fn view(&self) -> DiffSelectionKeyView {
        DiffSelectionKeyView { section: self.section, relative_path: self.relative_path@ }
    }
}

impl DiffSelectionKey {
    /// Whether two keys name the same file of the same section.
    pub fn same_key(&self, other: &DiffSelectionKey) -> (same: bool)
        ensures
            same == (self@ == other@),
    {
        self.section == other.section && self.relative_path.same_path(&other.relative_path)
    }
}

impl Clone for DiffSelectionKey {
    fn clone(&self) -> (result: Self)
        ensures
            result@ == self@,
    {
        DiffSelectionKey { section: self.section, relative_path: self.relative_path.clone() }
    }
}

/// What a line of a diff or of a conflict document shows.
#[derive(Clone, Copy, Debug, PartialEq, Eq, Structural)]
pub enum DiffLineKind {
    FileHeader,
    HunkHeader,
    Context,
    Addition,
    Deletion,
    BinaryNotice,
    ConflictMarker,
    ConflictOurs,
    ConflictBase,
    ConflictTheirs,
}

/// A stretch of highlighted text with its colour.
#[derive(Debug, PartialEq, Eq)]
pub struct HighlightedSpan {
    pub text: String,
    pub color: u32,
}

impl Clone for HighlightedSpan {
    fn clone(&self) -> (result: Self)
        ensures
            result == *self,
    {
        HighlightedSpan { text: self.text.clone(), color: self.color }
    }
}

/// A copy of a list of spans.
pub fn copy_spans(spans: &Vec<HighlightedSpan>) -> (result: Vec<HighlightedSpan>)
    ensures
        result@ == spans@,
{
    let mut result: Vec<HighlightedSpan> = Vec::new();
    let mut i: usize = 0;
    while i < spans.len()
        invariant
            i <= spans@.len(),
            result@ == spans@.take(i as int),
        decreases spans@.len() - i,
    {
        result.push(spans[i].clone());
        i = i + 1;
        assert(result@ =~= spans@.take(i as int));
    }
    assert(spans@.take(i as int) =~= spans@);
    result
}

/// A line of a diff.
#[derive(Debug, PartialEq, Eq)]
pub struct DiffLineView {
    pub kind: DiffLineKind,
    pub old_lineno: Option<u32>,
    pub new_lineno: Option<u32>,
    pub text: String,
    pub highlights: Option<Vec<HighlightedSpan>>,
    pub inline_changes: Option<Vec<crate::text::ByteRange>>,
}

impl DiffLineView {
    /// The two lines show the same.
    pub open spec fn same_line(self, other: DiffLineView) -> bool {
        &&& self.kind == other.kind
        &&& self.old_lineno == other.old_lineno
        &&& self.new_lineno == other.new_lineno
        &&& self.text == other.text
        &&& match (self.highlights, other.highlights) {
            (Some(mine), Some(theirs)) => mine@ == theirs@,
            (None, None) => true,
            _ => false,
        }
        &&& match (self.inline_changes, other.inline_changes) {
            (Some(mine), Some(theirs)) => mine@ == theirs@,
            (None, None) => true,
            _ => false,
        }
    }
}

fn copy_ranges(ranges: &Vec<crate::text::ByteRange>) -> (result: Vec<crate::text::ByteRange>)
    ensures
        result@ == ranges@,
{
    let mut result: Vec<crate::text::ByteRange> = Vec::new();
    let mut i: usize = 0;
    while i < ranges.len()
        invariant
            i <= ranges@.len(),
            result@ == ranges@.take(i as int),
        decreases ranges@.len() - i,
    {
        result.push(ranges[i]);
        i = i + 1;
        assert(result@ =~= ranges@.take(i as int));
    }
    assert(ranges@.take(i as int) =~= ranges@);
    result
}

impl Clone for DiffLineView {
    fn clone(&self) -> (result: Self)
        ensures
            result.same_line(*self),
    {
        DiffLineView {
            kind: self.kind,
            old_lineno: self.old_lineno,
            new_lineno: self.new_lineno,
            text: self.text.clone(),
            highlights: match &self.highlights {
                Some(spans) => Some(copy_spans(spans)),
                None => None,
            },
            inline_changes: match &self.inline_changes {
                Some(ranges) => Some(copy_ranges(ranges)),
                None => None,
            },
        }
    }
}

/// A path that is written out and read again is the same path, where its parts name something and
/// hold no slash.
pub proof fn written_path_reads_back(components: Seq<Seq<char>>)
    requires
        forall|i: int|
            0 <= i < components.len() ==> (#[trigger] components[i]).len() > 0 && components[i]
                != seq!['.'] && !components[i].contains('/'),
    ensures
        path_components(path_text(components)) == components,
{
    let keep = |part: Seq<char>| names_something(part);
    if components.len() == 0 {
        let none = Seq::<Seq<char>>::empty();
        assert(path_text(components) =~= Seq::<char>::empty());
        let parts = strings::split(path_text(components), '/');
        assert(parts =~= none.push(Seq::empty()));
        none.lemma_filter_push(Seq::empty(), keep);
        assert(none.filter(keep) =~= none) by {
            reveal(Seq::filter);
        }
        assert(path_components(path_text(components)) =~= components);
    } else {
        strings::splitting_takes_back_joining(components, '/');
        lemma_all_kept(components);
    }
}

proof fn lemma_all_kept(parts: Seq<Seq<char>>)
    requires
        forall|i: int| 0 <= i < parts.len() ==> names_something(#[trigger] parts[i]),
    ensures
        parts.filter(|part: Seq<char>| names_something(part)) == parts,
    decreases parts.len(),
{
    let keep = |part: Seq<char>| names_something(part);
    reveal(Seq::filter);
    if parts.len() > 0 {
        let rest = parts.drop_last();
        assert forall|i: int| 0 <= i < rest.len() implies names_something(#[trigger] rest[i]) by {
            assert(rest[i] == parts[i]);
        }
        lemma_all_kept(rest);
        assert(names_something(parts[parts.len() - 1]));
        assert(rest.push(parts.last()) =~= parts);
    }
    assert(parts.filter(keep) =~= parts);
}

/// The parts of a path that was read name something and hold no more than what stood between two
/// slashes.
pub proof fn read_path_names_something(path: Seq<char>, index: int)
    requires
        0 <= index < path_components(path).len(),
    ensures
        path_components(path)[index].len() > 0,
        path_components(path)[index] != seq!['.'],
        strings::split(path, '/').contains(path_components(path)[index]),
{
    let keep = |part: Seq<char>| names_something(part);
    let parts = strings::split(path, '/');
    let part = path_components(path)[index];
    broadcast use vstd::seq_lib::group_filter_ensures;
    assert(parts.filter(keep).contains(part));
    parts.lemma_filter_contains_rev(keep, part);
    parts.lemma_filter_pred(keep, index);
}

} // verus!
