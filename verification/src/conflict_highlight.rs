//! Syntax highlighting of conflicted files, incrementally from what an earlier text left.
//!
//! A highlighter is a function from a checkpoint and a line to the next checkpoint and the spans
//! of the line. Both sides of a conflict block are highlighted from the checkpoint before the
//! block; where they do not end at the same checkpoint, every line behind the block is highlighted
//! by itself.

use crate::conflict_lines;
use crate::conflict_lines::{ConflictHighlightMode, ConflictRenderLine};
use crate::model;
use crate::model::{DiffLineKind, DiffSelectionKey, HighlightedSpan};
use crate::strings;
use crate::text;
use vstd::prelude::*;
use vstd::string::*;
use vstd::utf8::*;

verus! {

/// The number of highlighted lines after which an anchor is set.
pub const CONFLICT_HIGHLIGHT_ANCHOR_INTERVAL: usize = 128;

/// The texts and colours of spans.
pub open spec fn span_views(spans: Seq<HighlightedSpan>) -> Seq<(Seq<char>, u32)> {
    spans.map_values(|span: HighlightedSpan| (span.text@, span.color))
}

/// The texts and colours of the spans of a line, if it has any.
pub open spec fn highlight_views(highlights: Option<Vec<HighlightedSpan>>) -> Option<
    Seq<(Seq<char>, u32)>,
> {
    match highlights {
        Some(spans) => Some(span_views(spans@)),
        None => None,
    }
}

/// A highlighter for the language of a file: the checkpoint before the first line, if the
/// language is known; the step over a line; and the highlights of a line by itself.
pub struct LineHighlighter<S, T> {
    pub initial: Option<u64>,
    pub step: S,
    pub alone: T,
}

impl<S: Fn(u64, &str) -> (u64, Vec<HighlightedSpan>), T: Fn(&str) -> Option<Vec<HighlightedSpan>>>
    LineHighlighter<S, T> {
    /// The step from a checkpoint over a line may give this checkpoint and these spans.
    pub open spec fn may_step(
        self,
        checkpoint: u64,
        line: Seq<char>,
        result: (u64, Seq<(Seq<char>, u32)>),
    ) -> bool {
        exists|source: &str, out: (u64, Vec<HighlightedSpan>)|
            source@ == line && #[trigger] self.step.ensures((checkpoint, source), out) && result == (
                out.0,
                span_views(out.1@),
            )
    }

    /// The step from a checkpoint over a line.
    pub open spec fn stepped(self, checkpoint: u64, line: Seq<char>) -> (
        u64,
        Seq<(Seq<char>, u32)>,
    ) {
        choose|result: (u64, Seq<(Seq<char>, u32)>)| self.may_step(checkpoint, line, result)
    }

    /// A line by itself may have these highlights.
    pub open spec fn may_show(self, line: Seq<char>, result: Option<Seq<(Seq<char>, u32)>>) -> bool {
        exists|source: &str, out: Option<Vec<HighlightedSpan>>|
            source@ == line && #[trigger] self.alone.ensures((source,), out) && result
                == highlight_views(out)
    }

    /// The highlights of a line by itself.
    pub open spec fn shown_alone(self, line: Seq<char>) -> Option<Seq<(Seq<char>, u32)>> {
        choose|result: Option<Seq<(Seq<char>, u32)>>| self.may_show(line, result)
    }

    /// The highlighter accepts every line, and its answers depend on the checkpoint and the text
    /// alone.
    pub open spec fn sound(self) -> bool {
        &&& forall|checkpoint: u64, source: &str|
            #[trigger] self.step.requires((checkpoint, source))
        &&& forall|source: &str| #[trigger] self.alone.requires((source,))
        &&& forall|checkpoint: u64, source: &str, out: (u64, Vec<HighlightedSpan>)|
            #[trigger] self.step.ensures((checkpoint, source), out) ==> (out.0, span_views(out.1@))
                == self.stepped(checkpoint, source@)
        &&& forall|source: &str, out: Option<Vec<HighlightedSpan>>|
            #[trigger] self.alone.ensures((source,), out) ==> highlight_views(out)
                == self.shown_alone(source@)
    }

    /// The highlights of a line of the given kind by itself. Markers have none.
    pub open spec fn stateless(self, kind: DiffLineKind, line: Seq<char>) -> Option<
        Seq<(Seq<char>, u32)>,
    > {
        match kind {
            DiffLineKind::ConflictOurs
            | DiffLineKind::ConflictBase
            | DiffLineKind::ConflictTheirs
            | DiffLineKind::Context => self.shown_alone(line),
            _ => None,
        }
    }

    /// The style of a line inside a block and the state behind it.
    pub open spec fn after_block_line(
        self,
        ours: u64,
        theirs: u64,
        base: u64,
        saw_base: bool,
        line: (DiffLineKind, Seq<char>),
    ) -> (LineStyle, HighlightState) {
        let (kind, raw) = line;
        let bytes = text::bytes_of(raw);
        let style = |highlights: Option<Seq<(Seq<char>, u32)>>|
            LineStyle { mode: ConflictHighlightMode::Stateful, highlights };
        match kind {
            DiffLineKind::ConflictMarker => (
                style(None),
                if conflict_lines::closes_block(bytes) {
                    if ours == theirs && (saw_base ==> theirs == base) {
                        HighlightState::Shared { checkpoint: ours, since: 0 }
                    } else {
                        HighlightState::Fallback
                    }
                } else {
                    HighlightState::Block { ours, theirs, base, saw_base }
                },
            ),
            DiffLineKind::ConflictOurs => (
                style(Some(self.stepped(ours, raw).1)),
                HighlightState::Block { ours: self.stepped(ours, raw).0, theirs, base, saw_base },
            ),
            DiffLineKind::ConflictTheirs => (
                style(Some(self.stepped(theirs, raw).1)),
                HighlightState::Block {
                    ours,
                    theirs: self.stepped(theirs, raw).0,
                    base,
                    saw_base,
                },
            ),
            DiffLineKind::ConflictBase => (
                style(Some(self.stepped(base, raw).1)),
                HighlightState::Block {
                    ours,
                    theirs,
                    base: self.stepped(base, raw).0,
                    saw_base: true,
                },
            ),
            _ => (
                style(self.stateless(kind, raw)),
                HighlightState::Block { ours, theirs, base, saw_base },
            ),
        }
    }

    /// The style of a line and the state behind it.
    pub open spec fn after_line(self, state: HighlightState, line: (DiffLineKind, Seq<char>)) -> (
        LineStyle,
        HighlightState,
    ) {
        let (kind, raw) = line;
        match state {
            HighlightState::Fallback => (
                LineStyle {
                    mode: ConflictHighlightMode::Fallback,
                    highlights: self.stateless(kind, raw),
                },
                HighlightState::Fallback,
            ),
            HighlightState::Block { ours, theirs, base, saw_base } => self.after_block_line(
                ours,
                theirs,
                base,
                saw_base,
                line,
            ),
            HighlightState::Shared { checkpoint, since } => if kind == DiffLineKind::ConflictMarker
                && conflict_lines::opens_block(text::bytes_of(raw)) {
                self.after_block_line(checkpoint, checkpoint, checkpoint, false, line)
            } else {
                let (next, spans) = self.stepped(checkpoint, raw);
                (
                    LineStyle { mode: ConflictHighlightMode::Stateful, highlights: Some(spans) },
                    HighlightState::Shared {
                        checkpoint: next,
                        since: if since + 1 >= CONFLICT_HIGHLIGHT_ANCHOR_INTERVAL {
                            0
                        } else {
                            (since + 1) as usize
                        },
                    },
                )
            },
        }
    }

    /// The state before a line.
    pub open spec fn state_before(self, lines: Seq<(DiffLineKind, Seq<char>)>, index: int) -> HighlightState
        decreases index,
    {
        if index <= 0 {
            HighlightState::Shared { checkpoint: self.initial->0, since: 0 }
        } else {
            self.after_line(self.state_before(lines, index - 1), lines[index - 1]).1
        }
    }

    /// The style of a line.
    pub open spec fn style_at(self, lines: Seq<(DiffLineKind, Seq<char>)>, index: int) -> LineStyle {
        self.after_line(self.state_before(lines, index), lines[index]).0
    }

    /// An anchor stands before the line: an interval or a block ended there, or the text begins
    /// there.
    pub open spec fn anchored(self, lines: Seq<(DiffLineKind, Seq<char>)>, index: int) -> bool {
        self.state_before(lines, index) matches HighlightState::Shared { since, .. } && since == 0
    }
}

/// How a line is highlighted.
pub struct LineStyle {
    pub mode: ConflictHighlightMode,
    pub highlights: Option<Seq<(Seq<char>, u32)>>,
}

/// What highlighting carries from line to line: the checkpoint outside of blocks and the number
/// of lines since the last anchor; the checkpoints of the sides inside a block; or nothing.
#[derive(Clone, Copy, Debug, PartialEq, Eq, Structural)]
pub enum HighlightState {
    Shared { checkpoint: u64, since: usize },
    Block { ours: u64, theirs: u64, base: u64, saw_base: bool },
    Fallback,
}

/// A line before which highlighting can start anew, and the checkpoint there.
#[derive(Clone, Copy, Debug, PartialEq, Eq, Structural)]
pub struct ConflictHighlightAnchor {
    pub line_index: usize,
    pub mode: ConflictHighlightMode,
    pub checkpoint: Option<u64>,
}

/// What highlighting reads of the lines: their kinds and texts.
pub open spec fn line_texts(lines: Seq<ConflictRenderLine>) -> Seq<(DiffLineKind, Seq<char>)> {
    lines.map_values(|line: ConflictRenderLine| (line.kind, line.raw_text@))
}

/// How a line is highlighted.
pub open spec fn style_of(line: ConflictRenderLine) -> LineStyle {
    LineStyle { mode: line.highlight_mode, highlights: highlight_views(line.highlights) }
}

impl<S: Fn(u64, &str) -> (u64, Vec<HighlightedSpan>), T: Fn(&str) -> Option<Vec<HighlightedSpan>>>
    LineHighlighter<S, T> {
    /// The lines between two indices are highlighted as a pass over all lines from the first on
    /// would highlight them.
    pub open spec fn styled(self, lines: Seq<ConflictRenderLine>, from: int, to: int) -> bool {
        forall|i: int|
            #![trigger lines[i]]
            from <= i < to ==> style_of(lines[i]) == self.style_at(line_texts(lines), i)
    }

    /// Every anchor holds the state before its line.
    pub open spec fn anchors_sound(
        self,
        anchors: Seq<ConflictHighlightAnchor>,
        lines: Seq<(DiffLineKind, Seq<char>)>,
    ) -> bool {
        forall|k: int|
            #![trigger anchors[k]]
            0 <= k < anchors.len() ==> {
                let anchor = anchors[k];
                &&& anchor.line_index <= lines.len()
                &&& anchor.mode == ConflictHighlightMode::Stateful
                &&& anchor.checkpoint is Some
                &&& self.state_before(lines, anchor.line_index as int) == (HighlightState::Shared {
                    checkpoint: anchor.checkpoint->0,
                    since: 0,
                })
            }
    }

    /// Every anchored line up to an index has its anchor.
    pub open spec fn anchors_complete(
        self,
        anchors: Seq<ConflictHighlightAnchor>,
        lines: Seq<(DiffLineKind, Seq<char>)>,
        upto: int,
    ) -> bool {
        forall|i: int|
            0 <= i <= upto && #[trigger] self.anchored(lines, i) ==> exists|k: int|
                0 <= k < anchors.len() && (#[trigger] anchors[k]).line_index == i
    }
}

/// The anchors come in the order of their lines.
pub open spec fn anchors_ordered(anchors: Seq<ConflictHighlightAnchor>) -> bool {
    forall|i: int, j: int|
        0 <= i < j < anchors.len() ==> (#[trigger] anchors[i]).line_index <= (
        #[trigger] anchors[j]).line_index
}

/// The highlighted lines of a text, kept to highlight the next text from.
#[derive(Debug)]
pub struct CachedConflictLines {
    pub selection: DiffSelectionKey,
    pub generation: u64,
    pub version: u64,
    pub theme_id: crate::theme::ThemeId,
    pub raw_text: String,
    pub lines: Vec<ConflictRenderLine>,
    pub anchors: Vec<ConflictHighlightAnchor>,
    pub max_line_chars: usize,
}

impl CachedConflictLines {
    /// The cache holds what the highlighter makes of its text. Without a highlighter for the file
    /// no line has highlights, and there are no anchors.
    pub open spec fn built_by<
        S: Fn(u64, &str) -> (u64, Vec<HighlightedSpan>),
        T: Fn(&str) -> Option<Vec<HighlightedSpan>>,
    >(self, highlighter: LineHighlighter<S, T>) -> bool {
        &&& conflict_lines::lines_of(self.lines@, text::bytes_of(self.raw_text@))
        &&& highlighter.initial is Some ==> {
            &&& highlighter.styled(self.lines@, 0, self.lines@.len() as int)
            &&& highlighter.anchors_sound(self.anchors@, line_texts(self.lines@))
            &&& highlighter.anchors_complete(
                self.anchors@,
                line_texts(self.lines@),
                self.lines@.len() as int,
            )
            &&& anchors_ordered(self.anchors@)
        }
        &&& highlighter.initial is None ==> {
            &&& self.anchors@.len() == 0
            &&& forall|i: int|
                #![trigger self.lines@[i]]
                0 <= i < self.lines@.len() ==> self.lines@[i].highlights is None
                    && self.lines@[i].highlight_mode == ConflictHighlightMode::Fallback
        }
    }
}

/// A copy of the highlights of a line.
fn copy_highlights(highlights: &Option<Vec<HighlightedSpan>>) -> (copy: Option<
    Vec<HighlightedSpan>,
>)
    ensures
        highlight_views(copy) == highlight_views(*highlights),
{
    match highlights {
        Some(spans) => Some(model::copy_spans(spans)),
        None => None,
    }
}

/// Sets the highlights of a line and leaves everything else as it is.
fn set_style(
    lines: &mut Vec<ConflictRenderLine>,
    index: usize,
    highlights: Option<Vec<HighlightedSpan>>,
    mode: ConflictHighlightMode,
)
    requires
        index < old(lines)@.len(),
    ensures
        final(lines)@ == old(lines)@.update(
            index as int,
            ConflictRenderLine {
                highlights,
                highlight_mode: mode,
                ..old(lines)@[index as int]
            },
        ),
{
    lines[index].highlights = highlights;
    lines[index].highlight_mode = mode;
}

impl<S: Fn(u64, &str) -> (u64, Vec<HighlightedSpan>), T: Fn(&str) -> Option<Vec<HighlightedSpan>>>
    LineHighlighter<S, T> {
    /// Highlights a line from a checkpoint on.
    fn highlight_line(&self, checkpoint: u64, raw: &str) -> (result: (u64, Vec<HighlightedSpan>))
        requires
            self.sound(),
        ensures
            (result.0, span_views(result.1@)) == self.stepped(checkpoint, raw@),
    {
        (self.step)(checkpoint, raw)
    }

    /// The highlights of a line by itself. Markers have none.
    pub fn conflict_line_stateless_highlights(&self, kind: DiffLineKind, raw: &str) -> (result:
        Option<Vec<HighlightedSpan>>)
        requires
            self.sound(),
        ensures
            highlight_views(result) == self.stateless(kind, raw@),
    {
        match kind {
            DiffLineKind::ConflictOurs
            | DiffLineKind::ConflictBase
            | DiffLineKind::ConflictTheirs
            | DiffLineKind::Context => (self.alone)(raw),
            _ => None,
        }
    }

    /// Highlights a line inside a block.
    fn highlight_block_line(
        &self,
        ours: u64,
        theirs: u64,
        base: u64,
        saw_base: bool,
        kind: DiffLineKind,
        raw: &str,
    ) -> (result: (Option<Vec<HighlightedSpan>>, HighlightState))
        requires
            self.sound(),
        ensures
            ({
                let (style, state) = self.after_block_line(
                    ours,
                    theirs,
                    base,
                    saw_base,
                    (kind, raw@),
                );
                &&& style == (LineStyle {
                    mode: ConflictHighlightMode::Stateful,
                    highlights: highlight_views(result.0),
                })
                &&& state == result.1
            }),
    {
        match kind {
            DiffLineKind::ConflictMarker => {
                if conflict_lines::line_closes_block(raw) {
                    if ours == theirs && (!saw_base || theirs == base) {
                        (None, HighlightState::Shared { checkpoint: ours, since: 0 })
                    } else {
                        (None, HighlightState::Fallback)
                    }
                } else {
                    (None, HighlightState::Block { ours, theirs, base, saw_base })
                }
            },
            DiffLineKind::ConflictOurs => {
                let (next, spans) = self.highlight_line(ours, raw);
                (Some(spans), HighlightState::Block { ours: next, theirs, base, saw_base })
            },
            DiffLineKind::ConflictTheirs => {
                let (next, spans) = self.highlight_line(theirs, raw);
                (Some(spans), HighlightState::Block { ours, theirs: next, base, saw_base })
            },
            DiffLineKind::ConflictBase => {
                let (next, spans) = self.highlight_line(base, raw);
                (Some(spans), HighlightState::Block { ours, theirs, base: next, saw_base: true })
            },
            _ => (
                self.conflict_line_stateless_highlights(kind, raw),
                HighlightState::Block { ours, theirs, base, saw_base },
            ),
        }
    }

    /// Highlights a line and moves the state over it.
    fn highlight_next(&self, state: HighlightState, kind: DiffLineKind, raw: &str) -> (result: (
        Option<Vec<HighlightedSpan>>,
        ConflictHighlightMode,
        HighlightState,
    ))
        requires
            self.sound(),
        ensures
            ({
                let (style, next) = self.after_line(state, (kind, raw@));
                &&& style == (LineStyle {
                    mode: result.1,
                    highlights: highlight_views(result.0),
                })
                &&& next == result.2
            }),
    {
        match state {
            HighlightState::Fallback => (
                self.conflict_line_stateless_highlights(kind, raw),
                ConflictHighlightMode::Fallback,
                HighlightState::Fallback,
            ),
            HighlightState::Block { ours, theirs, base, saw_base } => {
                let (highlights, next) = self.highlight_block_line(
                    ours,
                    theirs,
                    base,
                    saw_base,
                    kind,
                    raw,
                );
                (highlights, ConflictHighlightMode::Stateful, next)
            },
            HighlightState::Shared { checkpoint, since } => {
                if kind == DiffLineKind::ConflictMarker && conflict_lines::line_opens_block(raw) {
                    let (highlights, next) = self.highlight_block_line(
                        checkpoint,
                        checkpoint,
                        checkpoint,
                        false,
                        kind,
                        raw,
                    );
                    (highlights, ConflictHighlightMode::Stateful, next)
                } else {
                    let (next, spans) = self.highlight_line(checkpoint, raw);
                    let count: usize = if since >= CONFLICT_HIGHLIGHT_ANCHOR_INTERVAL - 1 {
                        0
                    } else {
                        since + 1
                    };
                    (
                        Some(spans),
                        ConflictHighlightMode::Stateful,
                        HighlightState::Shared { checkpoint: next, since: count },
                    )
                }
            },
        }
    }

    /// Texts that agree up to an index have the same state before it.
    proof fn lemma_state_prefix(
        self,
        a: Seq<(DiffLineKind, Seq<char>)>,
        b: Seq<(DiffLineKind, Seq<char>)>,
        index: int,
    )
        requires
            forall|i: int| 0 <= i < index ==> a[i] == b[i],
        ensures
            self.state_before(a, index) == self.state_before(b, index),
        decreases index,
    {
        if index > 0 {
            self.lemma_state_prefix(a, b, index - 1);
            assert(a[index - 1] == b[index - 1]);
        }
    }

    /// From equal states on, equal lines lead to equal states.
    proof fn lemma_state_shifted(
        self,
        a: Seq<(DiffLineKind, Seq<char>)>,
        from_a: int,
        b: Seq<(DiffLineKind, Seq<char>)>,
        from_b: int,
        count: int,
    )
        requires
            0 <= from_a,
            0 <= from_b,
            0 <= count,
            self.state_before(a, from_a) == self.state_before(b, from_b),
            forall|k: int| 0 <= k < count ==> #[trigger] a[from_a + k] == b[from_b + k],
        ensures
            self.state_before(a, from_a + count) == self.state_before(b, from_b + count),
        decreases count,
    {
        if count > 0 {
            self.lemma_state_shifted(a, from_a, b, from_b, count - 1);
            assert(a[from_a + (count - 1)] == b[from_b + (count - 1)]);
        }
    }
}

/// The anchors with one set before a line, in place of one that stands there already.
spec fn with_anchor(
    anchors: Seq<ConflictHighlightAnchor>,
    line_index: usize,
    checkpoint: u64,
) -> Seq<ConflictHighlightAnchor> {
    let anchor = ConflictHighlightAnchor {
        line_index,
        mode: ConflictHighlightMode::Stateful,
        checkpoint: Some(checkpoint),
    };
    if anchors.len() > 0 && anchors.last().line_index == line_index {
        anchors.drop_last().push(anchor)
    } else {
        anchors.push(anchor)
    }
}

/// Sets an anchor before a line, in place of one that stands there already.
fn push_conflict_highlight_anchor(
    anchors: &mut Vec<ConflictHighlightAnchor>,
    line_index: usize,
    checkpoint: u64,
)
    ensures
        final(anchors)@ == with_anchor(old(anchors)@, line_index, checkpoint),
{
    let len = anchors.len();
    if len > 0 && anchors[len - 1].line_index == line_index {
        let ghost before = anchors@;
        anchors.pop();
        assert(anchors@ =~= before.drop_last());
    }
    anchors.push(
        ConflictHighlightAnchor {
            line_index,
            mode: ConflictHighlightMode::Stateful,
            checkpoint: Some(checkpoint),
        },
    );
}

/// The last anchor at or before a line.
pub open spec fn nearest_anchor(anchors: Seq<ConflictHighlightAnchor>, line: int) -> Option<
    ConflictHighlightAnchor,
>
    decreases anchors.len(),
{
    if anchors.len() == 0 {
        None
    } else if anchors.last().line_index <= line {
        Some(anchors.last())
    } else {
        nearest_anchor(anchors.drop_last(), line)
    }
}

/// The last anchor at or before a line.
pub fn conflict_anchor_before_or_at(
    anchors: &Vec<ConflictHighlightAnchor>,
    line_index: usize,
) -> (anchor: Option<ConflictHighlightAnchor>)
    ensures
        anchor == nearest_anchor(anchors@, line_index as int),
        match anchor {
            Some(anchor) => exists|k: int|
                0 <= k < anchors@.len() && #[trigger] anchors@[k] == anchor && anchor.line_index
                    <= line_index && forall|j: int|
                    k < j < anchors@.len() ==> (#[trigger] anchors@[j]).line_index > line_index,
            None => forall|j: int|
                0 <= j < anchors@.len() ==> (#[trigger] anchors@[j]).line_index > line_index,
        },
{
    let mut left: usize = anchors.len();
    assert(anchors@.take(left as int) =~= anchors@);
    while left > 0
        invariant
            left <= anchors@.len(),
            nearest_anchor(anchors@, line_index as int) == nearest_anchor(
                anchors@.take(left as int),
                line_index as int,
            ),
            forall|j: int|
                left <= j < anchors@.len() ==> (#[trigger] anchors@[j]).line_index > line_index,
        decreases left,
    {
        let anchor = anchors[left - 1];
        assert(anchors@.take(left as int).drop_last() =~= anchors@.take(left - 1));
        if anchor.line_index <= line_index {
            assert(anchors@[left - 1] == anchor);
            return Some(anchor);
        }
        left = left - 1;
    }
    None
}

/// The first anchor before a line.
pub fn conflict_anchor_at_line(
    anchors: &Vec<ConflictHighlightAnchor>,
    line_index: usize,
) -> (anchor: Option<ConflictHighlightAnchor>)
    ensures
        match anchor {
            Some(anchor) => exists|k: int|
                0 <= k < anchors@.len() && #[trigger] anchors@[k] == anchor && anchor.line_index
                    == line_index && forall|j: int|
                    0 <= j < k ==> (#[trigger] anchors@[j]).line_index != line_index,
            None => forall|j: int|
                0 <= j < anchors@.len() ==> (#[trigger] anchors@[j]).line_index != line_index,
        },
{
    let mut k: usize = 0;
    while k < anchors.len()
        invariant
            k <= anchors@.len(),
            forall|j: int| 0 <= j < k ==> (#[trigger] anchors@[j]).line_index != line_index,
        decreases anchors@.len() - k,
    {
        let anchor = anchors[k];
        if anchor.line_index == line_index {
            assert(anchors@[k as int] == anchor);
            return Some(anchor);
        }
        k = k + 1;
    }
    None
}

/// Where the highlights of an earlier text can be taken over: up to the restart line, and from
/// the first line of the common end of both texts on.
struct ConflictHighlightReusePlan {
    restart: Option<ConflictHighlightAnchor>,
    reuse_start_new_line: usize,
    reuse_start_old_line: usize,
}

impl ConflictHighlightReusePlan {
    spec fn restart_line(self) -> int {
        match self.restart {
            Some(anchor) => anchor.line_index as int,
            None => 0,
        }
    }
}

/// The lines behind the first line feeds of a text are its first lines.
proof fn lemma_lines_in_prefix(bytes: Seq<u8>, end: int, index: int)
    requires
        0 <= end <= bytes.len(),
        0 <= index < text::line_starts_after(bytes, 0, end).len(),
    ensures
        index < conflict_lines::line_starts(bytes).len(),
        conflict_lines::line_starts(bytes)[index] == if index == 0 {
            0
        } else {
            text::line_starts_after(bytes, 0, end)[index - 1]
        },
        conflict_lines::line_end(bytes, index) == text::line_starts_after(bytes, 0, end)[index],
        text::line_starts_after(bytes, 0, end).len() <= conflict_lines::line_starts(bytes).len(),
    decreases bytes.len() - end,
{
    if end < bytes.len() - 1 {
        lemma_lines_in_prefix(bytes, end + 1, index);
    } else if end == bytes.len() {
        let all = text::line_starts_after(bytes, 0, end);
        let most = text::line_starts_after(bytes, 0, end - 1);
        assert(all =~= most || all =~= most.push(end));
    }
}

/// As many lines begin behind the first line feeds as there are line feeds.
proof fn lemma_newlines_start_lines(bytes: Seq<u8>, end: int)
    requires
        0 <= end,
    ensures
        text::newline_count(bytes, end) == text::line_starts_after(bytes, 0, end).len(),
    decreases end,
{
    if end > 0 {
        lemma_newlines_start_lines(bytes, end - 1);
    }
}

/// The line starts in a common prefix are the same.
proof fn lemma_shared_line_starts(a: Seq<u8>, b: Seq<u8>, end: int)
    requires
        0 <= end <= a.len(),
        end <= b.len(),
        forall|i: int| 0 <= i < end ==> a[i] == b[i],
    ensures
        text::line_starts_after(a, 0, end) == text::line_starts_after(b, 0, end),
    decreases end,
{
    if end > 0 {
        lemma_shared_line_starts(a, b, end - 1);
    }
}

proof fn lemma_starts_bounded(bytes: Seq<u8>, end: int)
    ensures
        forall|i: int|
            0 <= i < text::line_starts_after(bytes, 0, end).len() ==> 0
                < #[trigger] text::line_starts_after(bytes, 0, end)[i] <= end,
        text::increasing(text::line_starts_after(bytes, 0, end)),
    decreases end,
{
    if end > 0 {
        lemma_starts_bounded(bytes, end - 1);
    }
}

/// The lines of two texts that lie in their common prefix are the same.
proof fn lemma_shared_lines(a: Seq<u8>, b: Seq<u8>, end: int, index: int)
    requires
        0 <= end <= a.len(),
        end <= b.len(),
        forall|i: int| 0 <= i < end ==> a[i] == b[i],
        0 <= index <= text::line_starts_after(a, 0, end).len(),
    ensures
        conflict_lines::section_before(a, index) == conflict_lines::section_before(b, index),
        index < text::line_starts_after(a, 0, end).len() ==> conflict_lines::line_bytes(a, index)
            == conflict_lines::line_bytes(b, index),
    decreases index,
{
    lemma_shared_line_starts(a, b, end);
    if index < text::line_starts_after(a, 0, end).len() {
        lemma_lines_in_prefix(a, end, index);
        lemma_lines_in_prefix(b, end, index);
        lemma_starts_bounded(a, end);
        let starts = text::line_starts_after(a, 0, end);
        if index > 0 {
            assert(starts[index - 1] < starts[index]);
        }
        assert(conflict_lines::line_bytes(a, index) =~= conflict_lines::line_bytes(b, index));
    }
    if index > 0 {
        lemma_shared_lines(a, b, end, index - 1);
    }
}

/// The lines of two texts in their common prefix have the same kinds and texts.
proof fn lemma_shared_texts(
    old_lines: Seq<ConflictRenderLine>,
    old_chars: Seq<char>,
    new_lines: Seq<ConflictRenderLine>,
    new_chars: Seq<char>,
    end: int,
)
    requires
        conflict_lines::lines_of(old_lines, text::bytes_of(old_chars)),
        conflict_lines::lines_of(new_lines, text::bytes_of(new_chars)),
        text::shared_prefix(text::bytes_of(old_chars), text::bytes_of(new_chars), end),
    ensures
        text::newline_count(text::bytes_of(new_chars), end) <= old_lines.len(),
        text::newline_count(text::bytes_of(new_chars), end) <= new_lines.len(),
        forall|i: int|
            0 <= i < text::newline_count(text::bytes_of(new_chars), end) ==> line_texts(
                new_lines,
            )[i] == #[trigger] line_texts(old_lines)[i],
{
    let a = text::bytes_of(old_chars);
    let b = text::bytes_of(new_chars);
    lemma_newlines_start_lines(b, end);
    lemma_shared_line_starts(a, b, end);
    let count = text::line_starts_after(b, 0, end).len();
    if count > 0 {
        lemma_lines_in_prefix(a, end, 0);
        lemma_lines_in_prefix(b, end, 0);
    }
    assert forall|i: int| 0 <= i < count implies line_texts(new_lines)[i] == #[trigger] line_texts(
        old_lines,
    )[i] by {
        lemma_shared_lines(a, b, end, i);
        assert(old_lines[i].stands_at(a, i));
        assert(new_lines[i].stands_at(b, i));
        text::lemma_bytes_injective(old_lines[i].raw_text@, new_lines[i].raw_text@);
    }
}

/// What can be taken over from the lines of an earlier text. Highlighting restarts from the last
/// anchor before the first byte that differs, and lines are taken over from those on that begin in
/// the common end of both texts. There is no plan where one of the texts has no such line.
spec fn reuse_plan(
    bytes: Seq<u8>,
    lines: Seq<ConflictRenderLine>,
    prior: CachedConflictLines,
) -> Option<ConflictHighlightReusePlan> {
    let old_bytes = text::bytes_of(prior.raw_text@);
    let prefix_len = text::prefix_end(old_bytes, bytes, 0);
    let suffix_len = text::suffix_from(old_bytes, bytes, prefix_len, 0);
    let new_line = conflict_lines::first_line_from(lines, bytes.len() - suffix_len, 0);
    let old_line = conflict_lines::first_line_from(
        prior.lines@,
        old_bytes.len() - suffix_len,
        0,
    );
    if new_line < lines.len() && old_line < prior.lines@.len() {
        Some(
            ConflictHighlightReusePlan {
                restart: nearest_anchor(
                    prior.anchors@,
                    text::newline_count(bytes, prefix_len) as int,
                ),
                reuse_start_new_line: new_line as usize,
                reuse_start_old_line: old_line as usize,
            },
        )
    } else {
        None
    }
}

/// Finds what can be taken over from the lines of an earlier text.
fn build_conflict_highlight_reuse_plan(
    source: &str,
    lines: &Vec<ConflictRenderLine>,
    prior: &CachedConflictLines,
) -> (plan: Option<ConflictHighlightReusePlan>)
    requires
        conflict_lines::lines_of(lines@, text::bytes_of(source@)),
        conflict_lines::lines_of(prior.lines@, text::bytes_of(prior.raw_text@)),
    ensures
        plan == reuse_plan(text::bytes_of(source@), lines@, *prior),
        plan matches Some(plan) ==> {
            &&& plan.restart_line() <= lines@.len()
            &&& plan.restart_line() <= prior.lines@.len()
            &&& forall|i: int|
                0 <= i < plan.restart_line() ==> line_texts(lines@)[i] == #[trigger] line_texts(
                    prior.lines@,
                )[i]
            &&& plan.restart matches Some(anchor) ==> exists|k: int|
                0 <= k < prior.anchors@.len() && #[trigger] prior.anchors@[k] == anchor
            &&& plan.reuse_start_new_line < lines@.len()
            &&& plan.reuse_start_old_line < prior.lines@.len()
        },
{
    let old_bytes = prior.raw_text.as_str().as_bytes();
    let new_bytes = source.as_bytes();
    let prefix_len = text::common_prefix_len(old_bytes, new_bytes);
    let suffix_len = text::common_suffix_len(old_bytes, new_bytes, prefix_len);
    let first_dirty_line = text::line_index_for_offset_in_text(source, prefix_len);
    let restart = conflict_anchor_before_or_at(&prior.anchors, first_dirty_line);
    let reuse_start_new_line = conflict_lines::first_line_starting_at_or_after(
        lines,
        new_bytes.len() - suffix_len,
    );
    let reuse_start_old_line = conflict_lines::first_line_starting_at_or_after(
        &prior.lines,
        old_bytes.len() - suffix_len,
    );
    proof {
        lemma_shared_texts(prior.lines@, prior.raw_text@, lines@, source@, prefix_len as int);
    }
    if reuse_start_new_line < lines.len() && reuse_start_old_line < prior.lines.len() {
        Some(
            ConflictHighlightReusePlan { restart, reuse_start_new_line, reuse_start_old_line },
        )
    } else {
        None
    }
}

/// The lines are as before but for the highlights of those from an index on.
spec fn restyled(
    before: Seq<ConflictRenderLine>,
    after: Seq<ConflictRenderLine>,
    from: int,
) -> bool {
    &&& before.len() == after.len()
    &&& forall|i: int|
        #![trigger after[i]]
        0 <= i < before.len() ==> {
            &&& after[i] == (ConflictRenderLine {
                highlights: after[i].highlights,
                highlight_mode: after[i].highlight_mode,
                ..before[i]
            })
            &&& i < from ==> after[i] == before[i]
        }
}

proof fn lemma_restyled(
    before: Seq<ConflictRenderLine>,
    after: Seq<ConflictRenderLine>,
    from: int,
    bytes: Seq<u8>,
)
    requires
        restyled(before, after, from),
        conflict_lines::lines_of(before, bytes),
    ensures
        line_texts(after) == line_texts(before),
        conflict_lines::lines_of(after, bytes),
{
    assert forall|i: int| 0 <= i < after.len() implies (#[trigger] after[i]).stands_at(
        bytes,
        i,
    ) by {
        assert(before[i].stands_at(bytes, i));
    }
    assert(line_texts(after) =~= line_texts(before));
}

/// Two stretches of lines have the same kinds and texts.
spec fn lines_agree(
    texts: Seq<(DiffLineKind, Seq<char>)>,
    from: int,
    old_texts: Seq<(DiffLineKind, Seq<char>)>,
    old_from: int,
    count: int,
) -> bool {
    forall|j: int| 0 <= j < count ==> #[trigger] texts[from + j] == old_texts[old_from + j]
}

/// Whether two stretches of lines have the same kinds and texts.
fn same_lines(
    lines: &Vec<ConflictRenderLine>,
    from: usize,
    prior: &Vec<ConflictRenderLine>,
    prior_from: usize,
    count: usize,
) -> (same: bool)
    requires
        from + count <= lines@.len(),
        prior_from + count <= prior@.len(),
    ensures
        same == lines_agree(
            line_texts(lines@),
            from as int,
            line_texts(prior@),
            prior_from as int,
            count as int,
        ),
{
    let total = lines.len();
    let prior_total = prior.len();
    let mut k: usize = 0;
    while k < count
        invariant
            k <= count,
            total == lines@.len(),
            prior_total == prior@.len(),
            from + count <= total,
            prior_from + count <= prior_total,
            lines_agree(
                line_texts(lines@),
                from as int,
                line_texts(prior@),
                prior_from as int,
                k as int,
            ),
        decreases count - k,
    {
        let line = &lines[from + k];
        let prior_line = &prior[prior_from + k];
        if prior_line.kind != line.kind || !strings::same_text(
            prior_line.raw_text.as_str(),
            line.raw_text.as_str(),
        ) {
            assert(line_texts(lines@)[from + k] != line_texts(prior@)[prior_from + k]);
            return false;
        }
        k = k + 1;
    }
    true
}

/// Copies the highlights of a stretch of lines.
fn copy_styles(
    lines: &mut Vec<ConflictRenderLine>,
    from: usize,
    prior: &Vec<ConflictRenderLine>,
    prior_from: usize,
    count: usize,
)
    requires
        from + count <= old(lines)@.len(),
        prior_from + count <= prior@.len(),
    ensures
        restyled(old(lines)@, final(lines)@, from as int),
        forall|j: int|
            0 <= j < count ==> style_of(#[trigger] final(lines)@[from + j]) == style_of(
                prior@[prior_from + j],
            ),
        forall|j: int|
            from + count <= j < old(lines)@.len() ==> #[trigger] final(lines)@[j]
                == old(lines)@[j],
{
    let ghost before = lines@;
    let total = lines.len();
    let prior_total = prior.len();
    let mut k: usize = 0;
    while k < count
        invariant
            k <= count,
            total == before.len(),
            prior_total == prior@.len(),
            from + count <= total,
            prior_from + count <= prior_total,
            restyled(before, lines@, from as int),
            forall|j: int|
                0 <= j < k ==> style_of(#[trigger] lines@[from + j]) == style_of(
                    prior@[prior_from + j],
                ),
            forall|j: int|
                from + count <= j < before.len() ==> #[trigger] lines@[j] == before[j],
        decreases count - k,
    {
        let prior_line = &prior[prior_from + k];
        let highlights = copy_highlights(&prior_line.highlights);
        let mode = prior_line.highlight_mode;
        let ghost previous = lines@;
        set_style(lines, from + k, highlights, mode);
        proof {
            assert forall|j: int| 0 <= j < before.len() implies {
                &&& #[trigger] lines@[j] == (ConflictRenderLine {
                    highlights: lines@[j].highlights,
                    highlight_mode: lines@[j].highlight_mode,
                    ..before[j]
                })
                &&& j < from ==> lines@[j] == before[j]
            } by {
                assert(previous[j] == (ConflictRenderLine {
                    highlights: previous[j].highlights,
                    highlight_mode: previous[j].highlight_mode,
                    ..before[j]
                }));
            }
            assert forall|j: int| 0 <= j < k + 1 implies style_of(#[trigger] lines@[from + j])
                == style_of(prior@[prior_from + j]) by {
                if j < k {
                    assert(lines@[from + j] == previous[from + j]);
                }
            }
        }
        k = k + 1;
    }
}

/// The anchors of a stretch of lines, moved to where that stretch stands now.
spec fn moved_anchors(
    anchors: Seq<ConflictHighlightAnchor>,
    from: int,
    to: int,
    count: int,
) -> Seq<ConflictHighlightAnchor>
    decreases anchors.len(),
{
    if anchors.len() == 0 {
        Seq::empty()
    } else {
        let before = moved_anchors(anchors.drop_last(), from, to, count);
        let last = anchors.last();
        if from <= last.line_index <= from + count {
            before.push(
                ConflictHighlightAnchor {
                    line_index: (last.line_index - from + to) as usize,
                    ..last
                },
            )
        } else {
            before
        }
    }
}

/// Appends the anchors of a stretch of lines, moved to where that stretch stands now.
fn push_moved_anchors(
    anchors: &mut Vec<ConflictHighlightAnchor>,
    prior: &Vec<ConflictHighlightAnchor>,
    from: usize,
    to: usize,
    count: usize,
)
    requires
        to + count <= usize::MAX,
    ensures
        final(anchors)@ == old(anchors)@ + moved_anchors(
            prior@,
            from as int,
            to as int,
            count as int,
        ),
{
    let ghost kept = anchors@;
    let mut a: usize = 0;
    assert(prior@.take(0) =~= Seq::<ConflictHighlightAnchor>::empty());
    assert(anchors@ =~= kept + moved_anchors(
        prior@.take(0),
        from as int,
        to as int,
        count as int,
    ));
    while a < prior.len()
        invariant
            a <= prior@.len(),
            to + count <= usize::MAX,
            anchors@ == kept + moved_anchors(
                prior@.take(a as int),
                from as int,
                to as int,
                count as int,
            ),
        decreases prior@.len() - a,
    {
        let anchor = prior[a];
        assert(prior@.take(a + 1).drop_last() =~= prior@.take(a as int));
        if anchor.line_index >= from && anchor.line_index - from <= count {
            anchors.push(
                ConflictHighlightAnchor {
                    line_index: to + (anchor.line_index - from),
                    mode: anchor.mode,
                    checkpoint: anchor.checkpoint,
                },
            );
            assert(anchors@ =~= kept + moved_anchors(
                prior@.take(a + 1),
                from as int,
                to as int,
                count as int,
            ));
        }
        a = a + 1;
    }
    assert(prior@.take(a as int) =~= prior@);
}

/// Every moved anchor comes from an anchor.
proof fn lemma_moved_origin(
    anchors: Seq<ConflictHighlightAnchor>,
    from: int,
    to: int,
    count: int,
    k: int,
) -> (j: int)
    requires
        0 <= k < moved_anchors(anchors, from, to, count).len(),
    ensures
        0 <= j < anchors.len(),
        from <= anchors[j].line_index <= from + count,
        moved_anchors(anchors, from, to, count)[k] == (ConflictHighlightAnchor {
            line_index: (anchors[j].line_index - from + to) as usize,
            ..anchors[j]
        }),
    decreases anchors.len(),
{
    let rest = anchors.drop_last();
    let before = moved_anchors(rest, from, to, count);
    if k < before.len() {
        lemma_moved_origin(rest, from, to, count, k)
    } else {
        anchors.len() - 1
    }
}

/// Every anchor of the stretch is moved.
proof fn lemma_moved_target(
    anchors: Seq<ConflictHighlightAnchor>,
    from: int,
    to: int,
    count: int,
    j: int,
) -> (k: int)
    requires
        0 <= j < anchors.len(),
        from <= anchors[j].line_index <= from + count,
    ensures
        0 <= k < moved_anchors(anchors, from, to, count).len(),
        moved_anchors(anchors, from, to, count)[k].line_index == (anchors[j].line_index - from
            + to) as usize,
    decreases anchors.len(),
{
    let rest = anchors.drop_last();
    if j < rest.len() {
        lemma_moved_target(rest, from, to, count, j)
    } else {
        moved_anchors(rest, from, to, count).len() as int
    }
}

/// Moved anchors stay in order.
proof fn lemma_moved_ordered(anchors: Seq<ConflictHighlightAnchor>, from: int, to: int, count: int)
    requires
        0 <= from,
        0 <= to,
        to + count <= usize::MAX,
        anchors_ordered(anchors),
    ensures
        anchors_ordered(moved_anchors(anchors, from, to, count)),
    decreases anchors.len(),
{
    if anchors.len() > 0 {
        let rest = anchors.drop_last();
        let last = anchors[anchors.len() - 1];
        assert forall|i: int, j: int| 0 <= i < j < rest.len() implies (
        #[trigger] rest[i]).line_index <= (#[trigger] rest[j]).line_index by {
            assert(anchors[i].line_index <= anchors[j].line_index);
        }
        lemma_moved_ordered(rest, from, to, count);
        let before = moved_anchors(rest, from, to, count);
        let all = moved_anchors(anchors, from, to, count);
        assert forall|i: int, j: int| 0 <= i < j < all.len() implies (
        #[trigger] all[i]).line_index <= (#[trigger] all[j]).line_index by {
            if j < before.len() {
                assert(all[i] == before[i] && all[j] == before[j]);
            } else {
                assert(all[i] == before[i]);
                let m = lemma_moved_origin(rest, from, to, count, i);
                assert(anchors[m] == rest[m]);
                assert(anchors[m].line_index <= last.line_index);
            }
        }
    }
}

impl<S: Fn(u64, &str) -> (u64, Vec<HighlightedSpan>), T: Fn(&str) -> Option<Vec<HighlightedSpan>>>
    LineHighlighter<S, T> {
    /// Anchors moved to equal lines from equal states on are sound, and complete there.
    proof fn lemma_moved_anchors_sound(
        self,
        prior: Seq<ConflictHighlightAnchor>,
        old_texts: Seq<(DiffLineKind, Seq<char>)>,
        from: int,
        new_texts: Seq<(DiffLineKind, Seq<char>)>,
        to: int,
        count: int,
    )
        requires
            0 <= from,
            0 <= to,
            from + count <= old_texts.len(),
            to + count == new_texts.len(),
            0 <= count,
            new_texts.len() <= usize::MAX,
            self.state_before(new_texts, to) == self.state_before(old_texts, from),
            forall|j: int| 0 <= j < count ==> #[trigger] new_texts[to + j] == old_texts[from + j],
            self.anchors_sound(prior, old_texts),
            self.anchors_complete(prior, old_texts, old_texts.len() as int),
            anchors_ordered(prior),
        ensures
            self.anchors_sound(moved_anchors(prior, from, to, count), new_texts),
            anchors_ordered(moved_anchors(prior, from, to, count)),
            forall|k: int|
                0 <= k < moved_anchors(prior, from, to, count).len() ==> to <= (
                #[trigger] moved_anchors(prior, from, to, count)[k]).line_index,
            forall|i: int|
                to <= i <= new_texts.len() && #[trigger] self.anchored(new_texts, i) ==> exists|
                    k: int,
                |
                    0 <= k < moved_anchors(prior, from, to, count).len() && (
                    #[trigger] moved_anchors(prior, from, to, count)[k]).line_index == i,
    {
        let moved = moved_anchors(prior, from, to, count);
        lemma_moved_ordered(prior, from, to, count);
        assert forall|k: int| 0 <= k < moved.len() implies ({
            let anchor = #[trigger] moved[k];
            &&& to <= anchor.line_index
            &&& anchor.line_index <= new_texts.len()
            &&& anchor.mode == ConflictHighlightMode::Stateful
            &&& anchor.checkpoint is Some
            &&& self.state_before(new_texts, anchor.line_index as int) == (HighlightState::Shared {
                checkpoint: anchor.checkpoint->0,
                since: 0,
            })
        }) by {
            let j = lemma_moved_origin(prior, from, to, count, k);
            let shift = prior[j].line_index - from;
            self.lemma_state_shifted(new_texts, to, old_texts, from, shift);
        }
        assert forall|i: int|
            to <= i <= new_texts.len() && #[trigger] self.anchored(new_texts, i) implies exists|
            k: int,
        |
            0 <= k < moved.len() && (#[trigger] moved[k]).line_index == i by {
            let shift = i - to;
            self.lemma_state_shifted(new_texts, to, old_texts, from, shift);
            assert(self.anchored(old_texts, from + shift));
            let j = choose|j: int|
                0 <= j < prior.len() && (#[trigger] prior[j]).line_index == from + shift;
            let k = lemma_moved_target(prior, from, to, count, j);
            assert(moved[k].line_index == i);
        }
    }
}

impl ConflictHighlightReusePlan {
    /// The line of the earlier text that stands where a line stands now.
    spec fn old_line(self, line: int) -> int {
        line - self.reuse_start_new_line + self.reuse_start_old_line
    }

    /// The lines from one on are taken over from the earlier text: it is behind the start of the
    /// common end, the earlier text has an anchor with the same checkpoint there, and all the lines
    /// behind it are the same.
    spec fn takes_over(
        self,
        texts: Seq<(DiffLineKind, Seq<char>)>,
        line: int,
        checkpoint: u64,
        prior: CachedConflictLines,
    ) -> bool {
        &&& self.reuse_start_new_line <= line < texts.len()
        &&& self.old_line(line) + (texts.len() - line) <= prior.lines@.len()
        &&& exists|k: int|
            0 <= k < prior.anchors@.len() && (#[trigger] prior.anchors@[k]).line_index
                == self.old_line(line) && prior.anchors@[k].checkpoint == Some(checkpoint)
        &&& lines_agree(
            texts,
            line,
            line_texts(prior.lines@),
            self.old_line(line),
            texts.len() - line,
        )
    }

    /// The anchors that are taken over from the earlier text with the lines from one on.
    spec fn anchors_from(
        self,
        count: int,
        line: int,
        prior: CachedConflictLines,
    ) -> Seq<ConflictHighlightAnchor> {
        moved_anchors(prior.anchors@, self.old_line(line), line, count - line)
    }
}

/// Anchors before the same line hold the same checkpoint, and every anchor is one of a line that is
/// highlighted from a checkpoint.
spec fn anchors_agree(anchors: Seq<ConflictHighlightAnchor>) -> bool {
    &&& forall|k: int|
        0 <= k < anchors.len() ==> (#[trigger] anchors[k]).mode == ConflictHighlightMode::Stateful
    &&& forall|k: int, m: int|
        #![trigger anchors[k], anchors[m]]
        0 <= k < anchors.len() && 0 <= m < anchors.len() && anchors[k].line_index
            == anchors[m].line_index ==> anchors[k].checkpoint == anchors[m].checkpoint
}

impl<S: Fn(u64, &str) -> (u64, Vec<HighlightedSpan>), T: Fn(&str) -> Option<Vec<HighlightedSpan>>>
    LineHighlighter<S, T> {
    /// All anchors before a line hold the state there, so that one speaks for all of them.
    proof fn lemma_anchors_agree(
        self,
        anchors: Seq<ConflictHighlightAnchor>,
        texts: Seq<(DiffLineKind, Seq<char>)>,
    )
        requires
            self.anchors_sound(anchors, texts),
        ensures
            anchors_agree(anchors),
    {
        assert forall|k: int, m: int|
            #![trigger anchors[k], anchors[m]]
            0 <= k < anchors.len() && 0 <= m < anchors.len() && anchors[k].line_index
                == anchors[m].line_index implies anchors[k].checkpoint == anchors[m].checkpoint by {
            let first = self.state_before(texts, anchors[k].line_index as int);
            assert(first == (HighlightState::Shared {
                checkpoint: anchors[k].checkpoint->0,
                since: 0,
            }));
            assert(first == (HighlightState::Shared {
                checkpoint: anchors[m].checkpoint->0,
                since: 0,
            }));
        }
    }

    /// The styles of an earlier text fit the lines that are the same from the same state on.
    proof fn lemma_styles_taken_over(
        self,
        lines: Seq<ConflictRenderLine>,
        line: int,
        prior: Seq<ConflictRenderLine>,
        old_line: int,
    )
        requires
            0 <= line <= lines.len(),
            0 <= old_line,
            old_line + (lines.len() - line) <= prior.len(),
            self.state_before(line_texts(lines), line) == self.state_before(
                line_texts(prior),
                old_line,
            ),
            lines_agree(line_texts(lines), line, line_texts(prior), old_line, lines.len() - line),
            self.styled(prior, 0, prior.len() as int),
            forall|j: int|
                0 <= j < lines.len() - line ==> style_of(#[trigger] lines[line + j]) == style_of(
                    prior[old_line + j],
                ),
        ensures
            self.styled(lines, line, lines.len() as int),
    {
        let texts = line_texts(lines);
        let old_texts = line_texts(prior);
        assert forall|i: int| line <= i < lines.len() implies style_of(#[trigger] lines[i])
            == self.style_at(texts, i) by {
            let j = i - line;
            self.lemma_state_shifted(texts, line, old_texts, old_line, j);
            assert(texts[line + j] == old_texts[old_line + j]);
            assert(style_of(lines[line + j]) == style_of(prior[old_line + j]));
            assert(style_of(prior[old_line + j]) == self.style_at(old_texts, old_line + j));
        }
    }
}

/// The line of the earlier text from which lines are taken over, where they are.
fn find_reusable_suffix(
    lines: &Vec<ConflictRenderLine>,
    anchor_line_index: usize,
    checkpoint: u64,
    prior: &CachedConflictLines,
    plan: &ConflictHighlightReusePlan,
) -> (old_line: Option<usize>)
    requires
        anchors_agree(prior.anchors@),
        plan.reuse_start_old_line < prior.lines@.len(),
    ensures
        old_line == if plan.takes_over(
            line_texts(lines@),
            anchor_line_index as int,
            checkpoint,
            *prior,
        ) {
            Some(plan.old_line(anchor_line_index as int) as usize)
        } else {
            None
        },
{
    let count = lines.len();
    if anchor_line_index < plan.reuse_start_new_line || anchor_line_index >= count {
        return None;
    }
    let behind: usize = count - anchor_line_index;
    let ahead: usize = anchor_line_index - plan.reuse_start_new_line;
    if ahead >= prior.lines.len() - plan.reuse_start_old_line {
        return None;
    }
    let old_anchor_line: usize = plan.reuse_start_old_line + ahead;
    if prior.lines.len() - old_anchor_line < behind {
        return None;
    }
    assert(old_anchor_line == plan.old_line(anchor_line_index as int));
    let old_anchor = match conflict_anchor_at_line(&prior.anchors, old_anchor_line) {
        Some(anchor) => anchor,
        None => {
            return None;
        },
    };
    match old_anchor.checkpoint {
        Some(old_checkpoint) => if old_checkpoint != checkpoint {
            return None;
        },
        None => {
            return None;
        },
    }
    if old_anchor.mode != ConflictHighlightMode::Stateful || !same_lines(
        lines,
        anchor_line_index,
        &prior.lines,
        old_anchor_line,
        behind,
    ) {
        return None;
    }
    Some(old_anchor_line)
}

/// Takes over the highlights of an earlier text from an anchor on, where the state there and all
/// the lines behind it are the same.
fn try_reuse_conflict_highlight_suffix<
    S: Fn(u64, &str) -> (u64, Vec<HighlightedSpan>),
    T: Fn(&str) -> Option<Vec<HighlightedSpan>>,
>(
    highlighter: &LineHighlighter<S, T>,
    lines: &mut Vec<ConflictRenderLine>,
    anchor_line_index: usize,
    checkpoint: u64,
    prior: &CachedConflictLines,
    plan: &ConflictHighlightReusePlan,
    anchors: &mut Vec<ConflictHighlightAnchor>,
) -> (reused: bool)
    requires
        highlighter.initial is Some,
        prior.built_by(*highlighter),
        plan.reuse_start_new_line < old(lines)@.len(),
        plan.reuse_start_old_line < prior.lines@.len(),
        anchor_line_index <= old(lines)@.len(),
        highlighter.state_before(line_texts(old(lines)@), anchor_line_index as int) == (
        HighlightState::Shared { checkpoint, since: 0 }),
    ensures
        restyled(old(lines)@, final(lines)@, anchor_line_index as int),
        reused == plan.takes_over(
            line_texts(old(lines)@),
            anchor_line_index as int,
            checkpoint,
            *prior,
        ),
        !reused ==> final(lines)@ == old(lines)@ && final(anchors)@ == old(anchors)@,
        reused ==> final(anchors)@ == old(anchors)@ + plan.anchors_from(
            old(lines)@.len() as int,
            anchor_line_index as int,
            *prior,
        ),
        reused ==> forall|i: int|
            anchor_line_index <= i < final(lines)@.len() ==> style_of(#[trigger] final(lines)@[i])
                == style_of(prior.lines@[plan.old_line(i)]),
        reused ==> {
            let texts = line_texts(final(lines)@);
            let added = plan.anchors_from(
                old(lines)@.len() as int,
                anchor_line_index as int,
                *prior,
            );
            &&& anchors_ordered(added)
            &&& highlighter.anchors_sound(added, texts)
            &&& forall|k: int|
                0 <= k < added.len() ==> anchor_line_index <= (#[trigger] added[k]).line_index
            &&& forall|i: int|
                anchor_line_index <= i <= texts.len() && #[trigger] highlighter.anchored(texts, i)
                    ==> exists|k: int|
                    0 <= k < added.len() && (#[trigger] added[k]).line_index == i
        },
        reused ==> highlighter.styled(
            final(lines)@,
            anchor_line_index as int,
            final(lines)@.len() as int,
        ),
{
    proof {
        highlighter.lemma_anchors_agree(prior.anchors@, line_texts(prior.lines@));
    }
    let old_anchor_line = match find_reusable_suffix(
        lines,
        anchor_line_index,
        checkpoint,
        prior,
        plan,
    ) {
        Some(line) => line,
        None => {
            return false;
        },
    };
    let ghost new_texts = line_texts(lines@);
    let ghost old_texts = line_texts(prior.lines@);
    let behind: usize = lines.len() - anchor_line_index;
    proof {
        let k = choose|k: int|
            0 <= k < prior.anchors@.len() && (#[trigger] prior.anchors@[k]).line_index
                == old_anchor_line && prior.anchors@[k].checkpoint == Some(checkpoint);
        assert(highlighter.state_before(old_texts, prior.anchors@[k].line_index as int) == (
        HighlightState::Shared { checkpoint, since: 0 }));
    }
    copy_styles(lines, anchor_line_index, &prior.lines, old_anchor_line, behind);
    push_moved_anchors(anchors, &prior.anchors, old_anchor_line, anchor_line_index, behind);
    proof {
        assert(line_texts(lines@) =~= new_texts);
        highlighter.lemma_styles_taken_over(
            lines@,
            anchor_line_index as int,
            prior.lines@,
            old_anchor_line as int,
        );
        highlighter.lemma_moved_anchors_sound(
            prior.anchors@,
            old_texts,
            old_anchor_line as int,
            new_texts,
            anchor_line_index as int,
            behind as int,
        );
        assert forall|i: int| anchor_line_index <= i < lines@.len() implies style_of(
            #[trigger] lines@[i],
        ) == style_of(prior.lines@[plan.old_line(i)]) by {
            let j = i - anchor_line_index;
            assert(style_of(lines@[anchor_line_index + j]) == style_of(
                prior.lines@[old_anchor_line + j],
            ));
        }
    }
    true
}

/// The anchors up to a line.
spec fn anchors_upto(anchors: Seq<ConflictHighlightAnchor>, line: int) -> Seq<
    ConflictHighlightAnchor,
>
    decreases anchors.len(),
{
    if anchors.len() == 0 {
        Seq::empty()
    } else {
        let before = anchors_upto(anchors.drop_last(), line);
        if anchors.last().line_index <= line {
            before.push(anchors.last())
        } else {
            before
        }
    }
}

/// Copies the anchors up to a line.
fn copy_anchors_upto(prior: &Vec<ConflictHighlightAnchor>, line: usize) -> (anchors: Vec<
    ConflictHighlightAnchor,
>)
    ensures
        anchors@ == anchors_upto(prior@, line as int),
{
    let mut anchors: Vec<ConflictHighlightAnchor> = Vec::new();
    let mut a: usize = 0;
    assert(prior@.take(0) =~= Seq::<ConflictHighlightAnchor>::empty());
    while a < prior.len()
        invariant
            a <= prior@.len(),
            anchors@ == anchors_upto(prior@.take(a as int), line as int),
        decreases prior@.len() - a,
    {
        assert(prior@.take(a + 1).drop_last() =~= prior@.take(a as int));
        if prior[a].line_index <= line {
            anchors.push(prior[a]);
        }
        a = a + 1;
    }
    assert(prior@.take(a as int) =~= prior@);
    anchors
}

proof fn lemma_upto_origin(anchors: Seq<ConflictHighlightAnchor>, line: int, k: int) -> (j: int)
    requires
        0 <= k < anchors_upto(anchors, line).len(),
    ensures
        0 <= j < anchors.len(),
        anchors_upto(anchors, line)[k] == anchors[j],
        anchors[j].line_index <= line,
    decreases anchors.len(),
{
    let rest = anchors.drop_last();
    if k < anchors_upto(rest, line).len() {
        lemma_upto_origin(rest, line, k)
    } else {
        anchors.len() - 1
    }
}

proof fn lemma_upto_target(anchors: Seq<ConflictHighlightAnchor>, line: int, j: int) -> (k: int)
    requires
        0 <= j < anchors.len(),
        anchors[j].line_index <= line,
    ensures
        0 <= k < anchors_upto(anchors, line).len(),
        anchors_upto(anchors, line)[k] == anchors[j],
    decreases anchors.len(),
{
    let rest = anchors.drop_last();
    if j < rest.len() {
        lemma_upto_target(rest, line, j)
    } else {
        anchors_upto(rest, line).len() as int
    }
}

proof fn lemma_upto_ordered(anchors: Seq<ConflictHighlightAnchor>, line: int)
    requires
        anchors_ordered(anchors),
    ensures
        anchors_ordered(anchors_upto(anchors, line)),
    decreases anchors.len(),
{
    if anchors.len() > 0 {
        let rest = anchors.drop_last();
        assert forall|i: int, j: int| 0 <= i < j < rest.len() implies (
        #[trigger] rest[i]).line_index <= (#[trigger] rest[j]).line_index by {
            assert(anchors[i].line_index <= anchors[j].line_index);
        }
        lemma_upto_ordered(rest, line);
        let before = anchors_upto(rest, line);
        let all = anchors_upto(anchors, line);
        let last = anchors[anchors.len() - 1];
        assert forall|i: int, j: int| 0 <= i < j < all.len() implies (
        #[trigger] all[i]).line_index <= (#[trigger] all[j]).line_index by {
            if j < before.len() {
                assert(all[i] == before[i] && all[j] == before[j]);
            } else {
                assert(all[i] == before[i]);
                let m = lemma_upto_origin(rest, line, i);
                assert(anchors[m] == rest[m]);
                assert(anchors[m].line_index <= last.line_index);
            }
        }
    }
}

/// No two anchors stand before the same line.
pub open spec fn anchors_distinct(anchors: Seq<ConflictHighlightAnchor>) -> bool {
    forall|i: int, j: int|
        0 <= i < j < anchors.len() ==> (#[trigger] anchors[i]).line_index < (
        #[trigger] anchors[j]).line_index
}

impl<S: Fn(u64, &str) -> (u64, Vec<HighlightedSpan>), T: Fn(&str) -> Option<Vec<HighlightedSpan>>>
    LineHighlighter<S, T> {
    /// The anchors up to a line are those of the lines before it.
    spec fn anchors_cover(
        self,
        anchors: Seq<ConflictHighlightAnchor>,
        texts: Seq<(DiffLineKind, Seq<char>)>,
        upto: int,
    ) -> bool {
        &&& self.anchors_sound(anchors, texts)
        &&& self.anchors_complete(anchors, texts, upto)
        &&& anchors_ordered(anchors)
        &&& forall|k: int| 0 <= k < anchors.len() ==> (#[trigger] anchors[k]).line_index <= upto
    }

    /// Where no anchor stands before the next line, the anchors cover that line too.
    proof fn lemma_no_anchor(
        self,
        anchors: Seq<ConflictHighlightAnchor>,
        texts: Seq<(DiffLineKind, Seq<char>)>,
        line: int,
    )
        requires
            self.anchors_cover(anchors, texts, line - 1),
            !self.anchored(texts, line),
        ensures
            self.anchors_cover(anchors, texts, line),
    {
        assert forall|i: int| 0 <= i <= line && #[trigger] self.anchored(texts, i) implies exists|
            k: int,
        |
            0 <= k < anchors.len() && (#[trigger] anchors[k]).line_index == i by {
            assert(i <= line - 1);
        }
    }

    /// Setting an anchor before the next line keeps the anchors covering.
    proof fn lemma_anchor_pushed(
        self,
        before: Seq<ConflictHighlightAnchor>,
        after: Seq<ConflictHighlightAnchor>,
        texts: Seq<(DiffLineKind, Seq<char>)>,
        upto: int,
        line: usize,
        checkpoint: u64,
    )
        requires
            self.anchors_cover(before, texts, upto),
            line == upto || line == upto + 1,
            line <= texts.len(),
            self.state_before(texts, line as int) == (HighlightState::Shared {
                checkpoint,
                since: 0,
            }),
            ({
                let anchor = ConflictHighlightAnchor {
                    line_index: line,
                    mode: ConflictHighlightMode::Stateful,
                    checkpoint: Some(checkpoint),
                };
                after == if before.len() > 0 && before.last().line_index == line {
                    before.drop_last().push(anchor)
                } else {
                    before.push(anchor)
                }
            }),
        ensures
            self.anchors_cover(after, texts, line as int),
            anchors_distinct(before) ==> anchors_distinct(after),
    {
        let last = after.len() - 1;
        assert forall|k: int| 0 <= k < last implies #[trigger] after[k] == before[k] by {}
        assert forall|i: int| 0 <= i <= line && #[trigger] self.anchored(texts, i) implies exists|
            k: int,
        |
            0 <= k < after.len() && (#[trigger] after[k]).line_index == i by {
            if i == line {
                assert(after[last].line_index == i);
            } else {
                let k = choose|k: int|
                    0 <= k < before.len() && (#[trigger] before[k]).line_index == i;
                if k < last {
                    assert(after[k] == before[k]);
                }
            }
        }
        assert forall|i: int, j: int| 0 <= i < j < after.len() implies (
        #[trigger] after[i]).line_index <= (#[trigger] after[j]).line_index by {
            assert(after[i] == before[i]);
            if j < last {
                assert(after[j] == before[j]);
            }
        }
        if anchors_distinct(before) {
            assert forall|i: int, j: int| 0 <= i < j < after.len() implies (
            #[trigger] after[i]).line_index < (#[trigger] after[j]).line_index by {
                assert(after[i] == before[i]);
                if j < last {
                    assert(after[j] == before[j]);
                } else if before.len() == after.len() {
                    assert(before[i].line_index < before[before.len() - 1].line_index);
                } else {
                    assert(before[i].line_index <= before[before.len() - 1].line_index);
                }
            }
        }
    }

    /// Anchors that cover the lines up to one, followed by those from there on, cover all lines.
    proof fn lemma_anchors_joined(
        self,
        head: Seq<ConflictHighlightAnchor>,
        tail: Seq<ConflictHighlightAnchor>,
        texts: Seq<(DiffLineKind, Seq<char>)>,
        upto: int,
        line: int,
    )
        requires
            self.anchors_cover(head, texts, upto),
            upto <= line <= upto + 1,
            self.anchors_sound(tail, texts),
            anchors_ordered(tail),
            forall|k: int| 0 <= k < tail.len() ==> line <= (#[trigger] tail[k]).line_index,
            forall|i: int|
                line <= i <= texts.len() && #[trigger] self.anchored(texts, i) ==> exists|k: int|
                    0 <= k < tail.len() && (#[trigger] tail[k]).line_index == i,
        ensures
            self.anchors_cover(head + tail, texts, texts.len() as int),
    {
        let all = head + tail;
        assert forall|k: int| 0 <= k < all.len() implies ({
            let anchor = #[trigger] all[k];
            &&& anchor.line_index <= texts.len()
            &&& anchor.mode == ConflictHighlightMode::Stateful
            &&& anchor.checkpoint is Some
            &&& self.state_before(texts, anchor.line_index as int) == (HighlightState::Shared {
                checkpoint: anchor.checkpoint->0,
                since: 0,
            })
        }) by {
            if k < head.len() {
                assert(all[k] == head[k]);
            } else {
                assert(all[k] == tail[k - head.len()]);
            }
        }
        assert forall|i: int, j: int| 0 <= i < j < all.len() implies (
        #[trigger] all[i]).line_index <= (#[trigger] all[j]).line_index by {
            if j < head.len() {
                assert(all[i] == head[i] && all[j] == head[j]);
            } else if i >= head.len() {
                assert(all[i] == tail[i - head.len()] && all[j] == tail[j - head.len()]);
            } else {
                assert(all[i] == head[i] && all[j] == tail[j - head.len()]);
            }
        }
        assert forall|i: int|
            0 <= i <= texts.len() && #[trigger] self.anchored(texts, i) implies exists|k: int|
            0 <= k < all.len() && (#[trigger] all[k]).line_index == i by {
            if i >= line {
                let k = choose|k: int|
                    0 <= k < tail.len() && (#[trigger] tail[k]).line_index == i;
                assert(all[head.len() + k] == tail[k]);
            } else {
                let k = choose|k: int|
                    0 <= k < head.len() && (#[trigger] head[k]).line_index == i;
                assert(all[k] == head[k]);
            }
        }
    }

    /// The anchors of an earlier text up to the restart line cover the lines before it.
    proof fn lemma_kept_anchors(
        self,
        prior: Seq<ConflictHighlightAnchor>,
        old_texts: Seq<(DiffLineKind, Seq<char>)>,
        new_texts: Seq<(DiffLineKind, Seq<char>)>,
        line: int,
    )
        requires
            0 <= line <= old_texts.len(),
            line <= new_texts.len(),
            forall|i: int| 0 <= i < line ==> new_texts[i] == #[trigger] old_texts[i],
            self.anchors_sound(prior, old_texts),
            self.anchors_complete(prior, old_texts, old_texts.len() as int),
            anchors_ordered(prior),
        ensures
            self.anchors_cover(anchors_upto(prior, line), new_texts, line),
    {
        let kept = anchors_upto(prior, line);
        lemma_upto_ordered(prior, line);
        assert forall|k: int| 0 <= k < kept.len() implies ({
            let anchor = #[trigger] kept[k];
            &&& anchor.line_index <= line
            &&& anchor.line_index <= new_texts.len()
            &&& anchor.mode == ConflictHighlightMode::Stateful
            &&& anchor.checkpoint is Some
            &&& self.state_before(new_texts, anchor.line_index as int) == (HighlightState::Shared {
                checkpoint: anchor.checkpoint->0,
                since: 0,
            })
        }) by {
            let j = lemma_upto_origin(prior, line, k);
            self.lemma_state_prefix(new_texts, old_texts, prior[j].line_index as int);
        }
        assert forall|i: int|
            0 <= i <= line && #[trigger] self.anchored(new_texts, i) implies exists|k: int|
            0 <= k < kept.len() && (#[trigger] kept[k]).line_index == i by {
            self.lemma_state_prefix(new_texts, old_texts, i);
            assert(self.anchored(old_texts, i));
            let j = choose|j: int|
                0 <= j < prior.len() && (#[trigger] prior[j]).line_index == i;
            let k = lemma_upto_target(prior, line, j);
            assert(kept[k].line_index == i);
        }
    }
}

/// Takes over what an earlier text left from an anchor on, or sets an anchor there. Reports
/// whether all lines are highlighted now.
fn reuse_or_anchor<
    S: Fn(u64, &str) -> (u64, Vec<HighlightedSpan>),
    T: Fn(&str) -> Option<Vec<HighlightedSpan>>,
>(
    highlighter: &LineHighlighter<S, T>,
    lines: &mut Vec<ConflictRenderLine>,
    line_index: usize,
    checkpoint: u64,
    prior: Option<&CachedConflictLines>,
    plan: &Option<ConflictHighlightReusePlan>,
    anchors: &mut Vec<ConflictHighlightAnchor>,
    upto: Ghost<int>,
    bytes: Ghost<Seq<u8>>,
) -> (done: bool)
    requires
        conflict_lines::lines_of(old(lines)@, bytes@),
        highlighter.initial is Some,
        prior matches Some(prior) ==> prior.built_by(*highlighter),
        plan matches Some(plan) ==> prior is Some && plan.reuse_start_new_line < old(lines)@.len()
            && plan.reuse_start_old_line < prior->0.lines@.len(),
        line_index <= old(lines)@.len(),
        upto@ <= line_index <= upto@ + 1,
        highlighter.state_before(line_texts(old(lines)@), line_index as int) == (
        HighlightState::Shared { checkpoint, since: 0 }),
        highlighter.anchors_cover(old(anchors)@, line_texts(old(lines)@), upto@),
        highlighter.styled(old(lines)@, 0, line_index as int),
    ensures
        final(lines)@.len() == old(lines)@.len(),
        conflict_lines::lines_of(final(lines)@, bytes@),
        line_texts(final(lines)@) == line_texts(old(lines)@),
        done ==> highlighter.styled(final(lines)@, 0, final(lines)@.len() as int)
            && highlighter.anchors_cover(
            final(anchors)@,
            line_texts(final(lines)@),
            final(lines)@.len() as int,
        ),
        done == (plan is Some && plan->0.takes_over(
            line_texts(old(lines)@),
            line_index as int,
            checkpoint,
            *prior->0,
        )),
        final(anchors)@ == if done {
            old(anchors)@ + plan->0.anchors_from(
                old(lines)@.len() as int,
                line_index as int,
                *prior->0,
            )
        } else {
            with_anchor(old(anchors)@, line_index, checkpoint)
        },
        !done ==> final(lines)@ == old(lines)@ && highlighter.anchors_cover(
            final(anchors)@,
            line_texts(final(lines)@),
            line_index as int,
        ),
        !done && anchors_distinct(old(anchors)@) ==> anchors_distinct(final(anchors)@),
{
    let ghost before_anchors = anchors@;
    let ghost before = lines@;
    let ghost texts = line_texts(lines@);
    if let Some(plan) = plan {
        if let Some(prior) = prior {
            if try_reuse_conflict_highlight_suffix(
                highlighter,
                lines,
                line_index,
                checkpoint,
                prior,
                plan,
                anchors,
            ) {
                proof {
                    lemma_restyled(before, lines@, line_index as int, bytes@);
                    let added = plan.anchors_from(
                        before.len() as int,
                        line_index as int,
                        *prior,
                    );
                    highlighter.lemma_anchors_joined(
                        before_anchors,
                        added,
                        texts,
                        upto@,
                        line_index as int,
                    );
                    assert forall|i: int| 0 <= i < lines@.len() implies style_of(
                        #[trigger] lines@[i],
                    ) == highlighter.style_at(texts, i) by {
                        if i < line_index {
                            assert(lines@[i] == before[i]);
                        }
                    }
                }
                return true;
            }
        }
    }
    push_conflict_highlight_anchor(anchors, line_index, checkpoint);
    proof {
        highlighter.lemma_anchor_pushed(
            before_anchors,
            anchors@,
            texts,
            upto@,
            line_index,
            checkpoint,
        );
    }
    false
}

/// Highlights the next line.
fn highlight_line_at<
    S: Fn(u64, &str) -> (u64, Vec<HighlightedSpan>),
    T: Fn(&str) -> Option<Vec<HighlightedSpan>>,
>(
    highlighter: &LineHighlighter<S, T>,
    lines: &mut Vec<ConflictRenderLine>,
    line_index: usize,
    state: HighlightState,
    bytes: Ghost<Seq<u8>>,
) -> (next: HighlightState)
    requires
        highlighter.sound(),
        line_index < old(lines)@.len(),
        conflict_lines::lines_of(old(lines)@, bytes@),
        state == highlighter.state_before(line_texts(old(lines)@), line_index as int),
        highlighter.styled(old(lines)@, 0, line_index as int),
    ensures
        final(lines)@.len() == old(lines)@.len(),
        conflict_lines::lines_of(final(lines)@, bytes@),
        line_texts(final(lines)@) == line_texts(old(lines)@),
        highlighter.styled(final(lines)@, 0, line_index + 1),
        next == highlighter.state_before(line_texts(old(lines)@), line_index + 1),
{
    let ghost before = lines@;
    let ghost texts = line_texts(lines@);
    let (highlights, mode, next) = highlighter.highlight_next(
        state,
        lines[line_index].kind,
        lines[line_index].raw_text.as_str(),
    );
    set_style(lines, line_index, highlights, mode);
    proof {
        assert(texts[line_index as int] == (
            before[line_index as int].kind,
            before[line_index as int].raw_text@,
        ));
        assert(restyled(before, lines@, line_index as int));
        lemma_restyled(before, lines@, line_index as int, bytes@);
        assert forall|i: int| 0 <= i < line_index + 1 implies style_of(#[trigger] lines@[i])
            == highlighter.style_at(texts, i) by {
            if i < line_index {
                assert(lines@[i] == before[i]);
            }
        }
    }
    next
}

/// The lines of a text with their highlights, and the anchors to highlight the next text from.
/// With the lines of an earlier text at hand, unchanged stretches are taken over from them; the
/// lines come out the same as without.
pub fn build_conflict_render_lines_with_cache<
    S: Fn(u64, &str) -> (u64, Vec<HighlightedSpan>),
    T: Fn(&str) -> Option<Vec<HighlightedSpan>>,
>(
    source: &str,
    highlighter: &LineHighlighter<S, T>,
    prior_cache: Option<&CachedConflictLines>,
) -> (result: (Vec<ConflictRenderLine>, Vec<ConflictHighlightAnchor>))
    requires
        highlighter.sound(),
        prior_cache matches Some(prior) ==> prior.built_by(*highlighter),
    ensures
        conflict_lines::lines_of(result.0@, text::bytes_of(source@)),
        highlighter.initial is None ==> result.1@.len() == 0 && forall|i: int|
            #![trigger result.0@[i]]
            0 <= i < result.0@.len() ==> result.0@[i].highlights is None
                && result.0@[i].highlight_mode == ConflictHighlightMode::Fallback,
        highlighter.initial is Some ==> {
            let texts = line_texts(result.0@);
            &&& highlighter.styled(result.0@, 0, result.0@.len() as int)
            &&& highlighter.anchors_sound(result.1@, texts)
            &&& highlighter.anchors_complete(result.1@, texts, texts.len() as int)
            &&& anchors_ordered(result.1@)
            &&& prior_cache is None ==> anchors_distinct(result.1@)
        },
{
    let mut lines = conflict_lines::classify_conflict_render_lines(source);
    let mut anchors: Vec<ConflictHighlightAnchor> = Vec::new();
    let initial: u64 = match highlighter.initial {
        Some(checkpoint) => checkpoint,
        None => {
            return (lines, anchors);
        },
    };
    let ghost bytes = text::bytes_of(source@);
    let ghost texts = line_texts(lines@);
    let plan = match prior_cache {
        Some(prior) => build_conflict_highlight_reuse_plan(source, &lines, prior),
        None => None,
    };
    let mut checkpoint: u64 = initial;
    let mut line_index: usize = 0;
    if let Some(plan) = &plan {
        if let Some(prior) = prior_cache {
            if let Some(anchor) = plan.restart {
                proof {
                    let k = choose|k: int|
                        0 <= k < prior.anchors@.len() && #[trigger] prior.anchors@[k] == anchor;
                    assert(prior.anchors@[k] == anchor);
                    highlighter.lemma_state_prefix(
                        texts,
                        line_texts(prior.lines@),
                        anchor.line_index as int,
                    );
                }
                line_index = anchor.line_index;
                checkpoint = match anchor.checkpoint {
                    Some(checkpoint) => checkpoint,
                    None => initial,
                };
            }
            let ghost before = lines@;
            copy_styles(&mut lines, 0, &prior.lines, 0, line_index);
            anchors = copy_anchors_upto(&prior.anchors, line_index);
            proof {
                lemma_restyled(before, lines@, 0, bytes);
                assert forall|i: int| 0 <= i < line_index implies style_of(#[trigger] lines@[i])
                    == highlighter.style_at(texts, i) by {
                    assert(style_of(lines@[0 + i]) == style_of(prior.lines@[0 + i]));
                    highlighter.lemma_state_prefix(texts, line_texts(prior.lines@), i);
                    assert(texts[i] == line_texts(prior.lines@)[i]);
                    assert(style_of(prior.lines@[i]) == highlighter.style_at(
                        line_texts(prior.lines@),
                        i,
                    ));
                }
                highlighter.lemma_kept_anchors(
                    prior.anchors@,
                    line_texts(prior.lines@),
                    texts,
                    line_index as int,
                );
            }
        }
    }
    let mut state = HighlightState::Shared { checkpoint, since: 0 };
    if line_index == 0 {
        let ghost upto: int = if plan is Some {
            0
        } else {
            -1
        };
        if reuse_or_anchor(
            highlighter,
            &mut lines,
            0,
            checkpoint,
            prior_cache,
            &plan,
            &mut anchors,
            Ghost(upto),
            Ghost(bytes),
        ) {
            return (lines, anchors);
        }
    }
    while line_index < lines.len()
        invariant
            highlighter.sound(),
            highlighter.initial is Some,
            prior_cache matches Some(prior) ==> prior.built_by(*highlighter),
            plan matches Some(plan) ==> prior_cache is Some && plan.reuse_start_new_line
                < lines@.len() && plan.reuse_start_old_line < prior_cache->0.lines@.len(),
            bytes == text::bytes_of(source@),
            conflict_lines::lines_of(lines@, bytes),
            texts == line_texts(lines@),
            line_index <= lines@.len(),
            state == highlighter.state_before(texts, line_index as int),
            highlighter.styled(lines@, 0, line_index as int),
            highlighter.anchors_cover(anchors@, texts, line_index as int),
            prior_cache is None ==> anchors_distinct(anchors@),
        decreases lines@.len() - line_index,
    {
        let next = highlight_line_at(highlighter, &mut lines, line_index, state, Ghost(bytes));
        state = next;
        line_index = line_index + 1;
        let mut finished = false;
        match next {
            HighlightState::Shared { checkpoint, since } if since == 0 => {
                finished =
                reuse_or_anchor(
                    highlighter,
                    &mut lines,
                    line_index,
                    checkpoint,
                    prior_cache,
                    &plan,
                    &mut anchors,
                    Ghost(line_index - 1),
                    Ghost(bytes),
                );
            },
            _ => {
                proof {
                    highlighter.lemma_no_anchor(anchors@, texts, line_index as int);
                }
            },
        }
        if finished {
            return (lines, anchors);
        }
    }
    (lines, anchors)
}

/// The lines of a text with their highlights.
pub fn build_conflict_render_lines<
    S: Fn(u64, &str) -> (u64, Vec<HighlightedSpan>),
    T: Fn(&str) -> Option<Vec<HighlightedSpan>>,
>(source: &str, highlighter: &LineHighlighter<S, T>) -> (lines: Vec<ConflictRenderLine>)
    requires
        highlighter.sound(),
    ensures
        conflict_lines::lines_of(lines@, text::bytes_of(source@)),
        highlighter.initial is None ==> forall|i: int|
            #![trigger lines@[i]]
            0 <= i < lines@.len() ==> lines@[i].highlights is None && lines@[i].highlight_mode
                == ConflictHighlightMode::Fallback,
        highlighter.initial is Some ==> highlighter.styled(lines@, 0, lines@.len() as int),
{
    build_conflict_render_lines_with_cache(source, highlighter, None).0
}

/// However the highlighted lines of a text were built, in full or from those of an earlier text,
/// they are the same lines with the same highlights.
pub proof fn incremental_lines_match_full_lines<
    S: Fn(u64, &str) -> (u64, Vec<HighlightedSpan>),
    T: Fn(&str) -> Option<Vec<HighlightedSpan>>,
>(
    highlighter: LineHighlighter<S, T>,
    bytes: Seq<u8>,
    a: Seq<ConflictRenderLine>,
    b: Seq<ConflictRenderLine>,
)
    requires
        conflict_lines::lines_of(a, bytes),
        conflict_lines::lines_of(b, bytes),
        highlighter.styled(a, 0, a.len() as int),
        highlighter.styled(b, 0, b.len() as int),
    ensures
        a.len() == b.len(),
        line_texts(a) == line_texts(b),
        forall|i: int|
            #![trigger a[i], b[i]]
            0 <= i < a.len() ==> style_of(a[i]) == style_of(b[i]) && a[i].start == b[i].start
                && a[i].end == b[i].end && a[i].line_number == b[i].line_number && a[i].block_index
                == b[i].block_index,
{
    assert forall|i: int| 0 <= i < a.len() implies line_texts(a)[i] == line_texts(b)[i] by {
        assert(a[i].stands_at(bytes, i));
        assert(b[i].stands_at(bytes, i));
        text::lemma_bytes_injective(a[i].raw_text@, b[i].raw_text@);
    }
    assert(line_texts(a) =~= line_texts(b));
    assert forall|i: int| 0 <= i < a.len() implies style_of(#[trigger] a[i]) == style_of(
        #[trigger] b[i],
    ) && a[i].start == b[i].start && a[i].end == b[i].end && a[i].line_number == b[i].line_number
        && a[i].block_index == b[i].block_index by {
        assert(a[i].stands_at(bytes, i));
        assert(b[i].stands_at(bytes, i));
    }
}

impl<S: Fn(u64, &str) -> (u64, Vec<HighlightedSpan>), T: Fn(&str) -> Option<Vec<HighlightedSpan>>>
    LineHighlighter<S, T> {
    /// Once the sides of a block have left the highlighter in different states, every later line is
    /// highlighted on its own.
    pub proof fn lines_behind_unequal_sides_stand_alone(
        self,
        lines: Seq<(DiffLineKind, Seq<char>)>,
        from: int,
        index: int,
    )
        requires
            0 <= from <= index < lines.len(),
            self.state_before(lines, from) is Fallback,
        ensures
            self.state_before(lines, index) is Fallback,
            self.style_at(lines, index).mode is Fallback,
            lines[index].0 is Context ==> self.style_at(lines, index).highlights
                == self.shown_alone(lines[index].1),
            lines[index].0 is ConflictMarker ==> self.style_at(lines, index).highlights is None,
        decreases index - from,
    {
        if from < index {
            self.lines_behind_unequal_sides_stand_alone(lines, from, index - 1);
        }
    }

    /// Each side of a block goes on from its own lines: a line of one side leaves the other sides
    /// where they are, and is highlighted as the same line of another side in the same state.
    pub proof fn sides_are_highlighted_on_their_own(
        self,
        ours: u64,
        theirs: u64,
        base: u64,
        saw_base: bool,
        line: Seq<char>,
    )
        ensures
            ({
                let (style, after) = self.after_line(
                    HighlightState::Block { ours, theirs, base, saw_base },
                    (DiffLineKind::ConflictOurs, line),
                );
                let (other_style, other) = self.after_line(
                    HighlightState::Block { ours: theirs, theirs: ours, base, saw_base },
                    (DiffLineKind::ConflictTheirs, line),
                );
                &&& after matches HighlightState::Block { ours: next, theirs: t, base: b, .. } && t
                    == theirs && b == base && (other matches HighlightState::Block {
                    theirs: same,
                    ours: o,
                    ..
                } && same == next && o == theirs)
                &&& style == other_style
                &&& style.highlights is Some
            }),
    {
    }

    /// Where the sides of a block leave the highlighter in the same state, the text behind the block
    /// goes on from there; where they differ, it does not.
    pub proof fn sides_that_agree_go_on(
        self,
        ours: u64,
        theirs: u64,
        base: u64,
        saw_base: bool,
        marker: Seq<char>,
    )
        requires
            conflict_lines::closes_block(text::bytes_of(marker)),
        ensures
            ({
                let after = self.after_line(
                    HighlightState::Block { ours, theirs, base, saw_base },
                    (DiffLineKind::ConflictMarker, marker),
                ).1;
                &&& ours != theirs ==> after is Fallback
                &&& saw_base && base != ours ==> after is Fallback
                &&& ours == theirs && (!saw_base || base == ours) ==> (
                after matches HighlightState::Shared { checkpoint, .. } && checkpoint == ours)
            }),
    {
    }

    /// Text outside of blocks is highlighted line after line, each from where the one before it
    /// ended.
    pub proof fn plain_text_is_highlighted_line_after_line(
        self,
        lines: Seq<(DiffLineKind, Seq<char>)>,
        index: int,
    )
        requires
            0 <= index < lines.len(),
            forall|i: int| 0 <= i <= index ==> (#[trigger] lines[i]).0 is Context,
        ensures
            self.state_before(lines, index) is Shared,
            ({
                let checkpoint = self.state_before(lines, index)->Shared_checkpoint;
                &&& self.style_at(lines, index).highlights == Some(
                    self.stepped(checkpoint, lines[index].1).1,
                )
                &&& self.state_before(lines, index + 1) is Shared
                &&& self.state_before(lines, index + 1)->Shared_checkpoint == self.stepped(
                    checkpoint,
                    lines[index].1,
                ).0
            }),
            index == 0 ==> self.state_before(lines, index)->Shared_checkpoint == self.initial->0,
        decreases index,
    {
        if index > 0 {
            self.plain_text_is_highlighted_line_after_line(lines, index - 1);
        }
    }
}

} // verus!
