//! The live feed of changes of a project.

use crate::feed;
use crate::feed::{ChangeFeedEntry, FeedCaptureState, FeedEntryOrigin, FeedScopeKind};
use crate::model;
use crate::model::{
    DiffLineKind, DiffLineView, DiffSelectionKey, DiffSelectionKeyView, RelativePath,
};
use crate::strings;
use crate::theme::OrcaTheme;
use crate::widgets;
use crate::widgets::{ColoredText, PanelMessage};
use vstd::prelude::*;

verus! {

/// How the list of entries is brought up to date.
#[derive(Clone, Copy, Debug, PartialEq, Eq, Structural)]
pub enum FeedListUpdate {
    /// Nothing changed.
    Unchanged,
    /// Entries came in at the end.
    Append { at: usize, count: usize },
    /// The list is made anew.
    Reset { count: usize },
}

/// What the feed of a project is about to show.
#[derive(Debug)]
pub struct LiveDiffFeedState {
    pub entries: Vec<ChangeFeedEntry>,
    pub unread_count: usize,
    pub live_follow: bool,
    pub detail_pane_open: bool,
    pub selected_entry_id: Option<u64>,
    pub tracked_scope_count: usize,
    pub latest_scope_error: Option<String>,
}

/// The live feed of a project. It remembers which entries its list shows and which one's detail is
/// open.
#[derive(Debug)]
pub struct LiveDiffStreamView {
    pub project_id: String,
    pub entry_ids: Vec<u64>,
    pub detail_entry_id: Option<u64>,
}

/// The identities of entries.
pub open spec fn ids_of(entries: Seq<ChangeFeedEntry>) -> Seq<u64> {
    entries.map_values(|entry: ChangeFeedEntry| entry.id)
}

/// The identities of the entries of a feed. A missing feed has none.
pub open spec fn feed_ids(state: Option<&LiveDiffFeedState>) -> Seq<u64> {
    match state {
        Some(state) => ids_of(state.entries@),
        None => Seq::empty(),
    }
}

/// The identities of the entries of a feed.
pub fn capture_feed_snapshot(state: Option<&LiveDiffFeedState>) -> (ids: Vec<u64>)
    ensures
        ids@ == feed_ids(state),
{
    let mut ids: Vec<u64> = Vec::new();
    if let Some(state) = state {
        let mut i: usize = 0;
        while i < state.entries.len()
            invariant
                i <= state.entries@.len(),
                ids@ == ids_of(state.entries@.take(i as int)),
            decreases state.entries@.len() - i,
        {
            ids.push(state.entries[i].id);
            i = i + 1;
            assert(ids@ =~= ids_of(state.entries@.take(i as int)));
        }
        assert(state.entries@.take(i as int) =~= state.entries@);
    }
    assert(ids@ =~= feed_ids(state));
    ids
}

/// How a list of entries is brought up to date.
pub open spec fn list_update(shown: Seq<u64>, ids: Seq<u64>) -> FeedListUpdate {
    if ids == shown {
        FeedListUpdate::Unchanged
    } else if shown.is_prefix_of(ids) {
        FeedListUpdate::Append {
            at: shown.len() as usize,
            count: (ids.len() - shown.len()) as usize,
        }
    } else {
        FeedListUpdate::Reset { count: ids.len() as usize }
    }
}

fn begins_with(ids: &Vec<u64>, shown: &Vec<u64>) -> (begins: bool)
    ensures
        begins == shown@.is_prefix_of(ids@),
{
    if shown.len() > ids.len() {
        return false;
    }
    let mut i: usize = 0;
    while i < shown.len()
        invariant
            i <= shown@.len() <= ids@.len(),
            forall|k: int| 0 <= k < i ==> shown@[k] == ids@[k],
        decreases shown@.len() - i,
    {
        if shown[i] != ids[i] {
            return false;
        }
        i = i + 1;
    }
    assert(shown@ =~= ids@.take(shown@.len() as int));
    true
}

/// The label of the button that goes back to the newest entry.
pub open spec fn live_text(unread_count: usize) -> Seq<char> {
    if unread_count > 0 {
        "Back to Live"@ + " ("@ + strings::decimal(unread_count as nat) + ")"@
    } else {
        "Back to Live"@
    }
}

/// The header of the feed.
#[derive(Debug)]
pub struct FeedHeader {
    pub project_name: String,
    pub state: String,
    pub state_color: u32,
    pub scopes: String,
    pub back_to_live: Option<String>,
    pub events: String,
    /// The button that closes the detail.
    pub close: Option<String>,
}

/// The header of the feed says this.
pub open spec fn header_says(
    header: FeedHeader,
    palette: OrcaTheme,
    project_name: Option<&str>,
    state: Option<&LiveDiffFeedState>,
) -> bool {
    let live = state is None || state->0.live_follow;
    let scopes = match state {
        Some(state) => state.tracked_scope_count as nat,
        None => 0,
    };
    let unread = match state {
        Some(state) => state.unread_count,
        None => 0,
    };
    &&& header.project_name@ == match project_name {
        Some(name) => name@,
        None => "Missing Project"@,
    }
    &&& header.state@ == if live {
        "LIVE"@
    } else {
        "PAUSED"@
    }
    &&& header.state_color == if live {
        palette.STATUS_GREEN
    } else {
        palette.STATUS_AMBER
    }
    &&& header.scopes@ == strings::decimal(scopes) + " tracked scope(s)"@
    &&& strings::optional_view(header.back_to_live) == if !live || unread > 0 {
        Some(live_text(unread))
    } else {
        None
    }
    &&& header.events@ == strings::decimal(feed_ids(state).len()) + " event(s)"@
    &&& strings::optional_view(header.close) == if state is Some && state->0.detail_pane_open {
        Some("Close"@)
    } else {
        None
    }
}

/// The header of the feed: the project, whether the feed follows the newest entry, how many scopes
/// are watched, the way back to the newest entry, how many entries there are, and a button that
/// closes the detail.
pub fn render_feed_header(
    palette: &OrcaTheme,
    project_name: Option<&str>,
    state: Option<&LiveDiffFeedState>,
) -> (header: FeedHeader)
    ensures
        header_says(header, *palette, project_name, state),
{
    let (live, scopes, unread, events, open): (bool, usize, usize, usize, bool) = match state {
        Some(state) => (
            state.live_follow,
            state.tracked_scope_count,
            state.unread_count,
            state.entries.len(),
            state.detail_pane_open,
        ),
        None => (true, 0, 0, 0, false),
    };
    let mut scope_text = strings::format_decimal(scopes as u64);
    scope_text.append(" tracked scope(s)");
    let mut event_text = strings::format_decimal(events as u64);
    event_text.append(" event(s)");
    FeedHeader {
        project_name: match project_name {
            Some(name) => name.to_owned(),
            None => "Missing Project".to_owned(),
        },
        state: if live {
            "LIVE".to_owned()
        } else {
            "PAUSED".to_owned()
        },
        state_color: if live {
            palette.STATUS_GREEN
        } else {
            palette.STATUS_AMBER
        },
        scopes: scope_text,
        back_to_live: if !live || unread > 0 {
            Some(widgets::label_with_count("Back to Live", unread))
        } else {
            None
        },
        events: event_text,
        close: if open {
            Some("Close".to_owned())
        } else {
            None
        },
    }
}

/// What happens to the detail before a frame is drawn.
#[derive(Clone, Copy, Debug, PartialEq, Eq, Structural)]
pub enum DetailStep {
    /// It stays as it is.
    Keep,
    /// The detail of the entry at an index is opened.
    Open { index: usize },
    /// It is closed, and the feed is told so: the entry is gone.
    CloseMissing,
    /// It is closed.
    Close,
}

/// The first entry with an identity.
pub open spec fn entry_with_id(entries: Seq<ChangeFeedEntry>, id: u64) -> Option<int>
    decreases entries.len(),
{
    if entries.len() == 0 {
        None
    } else {
        match entry_with_id(entries.drop_last(), id) {
            Some(index) => Some(index),
            None => if entries.last().id == id {
                Some(entries.len() - 1)
            } else {
                None
            },
        }
    }
}

proof fn lemma_entry_prefix(entries: Seq<ChangeFeedEntry>, id: u64, count: int)
    requires
        0 <= count <= entries.len(),
        entry_with_id(entries.take(count), id) is Some,
    ensures
        entry_with_id(entries, id) == entry_with_id(entries.take(count), id),
    decreases entries.len(),
{
    if count < entries.len() {
        assert(entries.drop_last().take(count) =~= entries.take(count));
        lemma_entry_prefix(entries.drop_last(), id, count);
    } else {
        assert(entries.take(count) =~= entries);
    }
}

/// Finds the first entry with an identity.
pub fn find_entry(entries: &Vec<ChangeFeedEntry>, id: u64) -> (index: Option<usize>)
    ensures
        match index {
            Some(index) => index < entries@.len() && entry_with_id(entries@, id) == Some(
                index as int,
            ),
            None => entry_with_id(entries@, id) is None,
        },
{
    let mut i: usize = 0;
    assert(entries@.take(0) =~= Seq::<ChangeFeedEntry>::empty());
    while i < entries.len()
        invariant
            i <= entries@.len(),
            entry_with_id(entries@.take(i as int), id) is None,
        decreases entries@.len() - i,
    {
        assert(entries@.take(i + 1).drop_last() =~= entries@.take(i as int));
        if entries[i].id == id {
            proof {
                assert(entry_with_id(entries@.take(i + 1), id) == Some(i as int));
                lemma_entry_prefix(entries@, id, i + 1);
            }
            return Some(i);
        }
        i = i + 1;
    }
    assert(entries@.take(i as int) =~= entries@);
    None
}

/// What happens to the detail before a frame is drawn.
pub open spec fn detail_step(shown: Option<u64>, state: Option<&LiveDiffFeedState>) -> DetailStep {
    match state {
        Some(state) => if !state.detail_pane_open {
            if shown is Some {
                DetailStep::Close
            } else {
                DetailStep::Keep
            }
        } else {
            match state.selected_entry_id {
                None => DetailStep::Keep,
                Some(id) => if shown == Some(id) {
                    DetailStep::Keep
                } else {
                    match entry_with_id(state.entries@, id) {
                        Some(index) => DetailStep::Open { index: index as usize },
                        None => DetailStep::CloseMissing,
                    }
                },
            }
        },
        None => if shown is Some {
            DetailStep::Close
        } else {
            DetailStep::Keep
        },
    }
}

impl LiveDiffStreamView {
    /// The feed of a project, with its list as it stands.
    pub fn new(project_id: String, state: Option<&LiveDiffFeedState>) -> (view: Self)
        ensures
            view.project_id == project_id,
            view.entry_ids@ == feed_ids(state),
            view.detail_entry_id is None,
    {
        LiveDiffStreamView {
            project_id,
            entry_ids: capture_feed_snapshot(state),
            detail_entry_id: None,
        }
    }

    /// Brings the list up to date: entries that came in at the end are appended, and otherwise the
    /// list is made anew.
    pub fn sync_feed_list_state(&mut self, state: Option<&LiveDiffFeedState>) -> (update:
        FeedListUpdate)
        ensures
            update == list_update(old(self).entry_ids@, feed_ids(state)),
            final(self).entry_ids@ == feed_ids(state),
            final(self).project_id == old(self).project_id,
            final(self).detail_entry_id == old(self).detail_entry_id,
    {
        let ids = capture_feed_snapshot(state);
        let shown = self.entry_ids.len();
        let extends = begins_with(&ids, &self.entry_ids);
        let count = ids.len();
        let update = if extends && shown == count {
            assert(ids@ =~= self.entry_ids@);
            FeedListUpdate::Unchanged
        } else if extends {
            FeedListUpdate::Append { at: shown, count: count - shown }
        } else {
            FeedListUpdate::Reset { count }
        };
        self.entry_ids = ids;
        update
    }

    /// Goes back to the newest entry: the list is made anew at its end.
    pub fn scroll_to_live(&self) -> (update: FeedListUpdate)
        ensures
            update == (FeedListUpdate::Reset { count: self.entry_ids@.len() as usize }),
    {
        FeedListUpdate::Reset { count: self.entry_ids.len() }
    }

    /// Opens, keeps or closes the detail as the feed asks for.
    pub fn sync_detail(&mut self, state: Option<&LiveDiffFeedState>) -> (step: DetailStep)
        ensures
            step == detail_step(old(self).detail_entry_id, state),
            final(self).detail_entry_id == match step {
                DetailStep::Keep => old(self).detail_entry_id,
                DetailStep::Open { index } => Some(state->0.entries@[index as int].id),
                _ => None,
            },
            final(self).entry_ids == old(self).entry_ids,
            final(self).project_id == old(self).project_id,
    {
        let (open, wanted): (bool, Option<u64>) = match state {
            Some(state) => (state.detail_pane_open, state.selected_entry_id),
            None => (false, None),
        };
        if !open {
            if self.detail_entry_id.is_some() {
                self.detail_entry_id = None;
                return DetailStep::Close;
            }
            return DetailStep::Keep;
        }
        let id = match wanted {
            Some(id) => id,
            None => {
                return DetailStep::Keep;
            },
        };
        if let Some(shown) = self.detail_entry_id {
            if shown == id {
                return DetailStep::Keep;
            }
        }
        if let Some(state) = state {
            if let Some(index) = find_entry(&state.entries, id) {
                self.detail_entry_id = Some(state.entries[index].id);
                return DetailStep::Open { index };
            }
        }
        self.detail_entry_id = None;
        DetailStep::CloseMissing
    }

    /// Closes the detail.
    pub fn close_detail(&mut self)
        ensures
            final(self).detail_entry_id is None,
            final(self).entry_ids == old(self).entry_ids,
            final(self).project_id == old(self).project_id,
    {
        self.detail_entry_id = None;
    }

    /// The entry whose detail is made anew for another theme.
    pub fn invalidate_theme_cache(&self, state: Option<&LiveDiffFeedState>) -> (index: Option<
        usize,
    >)
        ensures
            match (self.detail_entry_id, state) {
                (Some(id), Some(state)) => match entry_with_id(state.entries@, id) {
                    Some(found) => index == Some(found as usize),
                    None => index is None,
                },
                _ => index is None,
            },
    {
        match (self.detail_entry_id, state) {
            (Some(id), Some(state)) => find_entry(&state.entries, id),
            _ => None,
        }
    }
}

/// What the body of the feed shows.
#[derive(Debug)]
pub enum FeedBody {
    /// The detail of an entry.
    Detail,
    /// Why there are no entries.
    Empty(PanelMessage),
    /// The entries.
    List,
}

/// The body of the feed says this.
pub open spec fn feed_body_says(
    body: FeedBody,
    detail_entry_id: Option<u64>,
    state: Option<&LiveDiffFeedState>,
) -> bool {
    let open = state is Some && state->0.detail_pane_open && detail_entry_id is Some;
    if open {
        body is Detail
    } else if feed_ids(state).len() > 0 {
        body is List
    } else {
        body matches FeedBody::Empty(message) && message@ == if state is None
            || state->0.tracked_scope_count == 0 {
            widgets::panel_text(
                "No git scopes are active"@,
                "Open a git-backed terminal in this project to start the live diff feed."@,
            )
        } else {
            widgets::panel_text(
                "No feed events yet"@,
                "Tracked scopes are armed. Events will appear here after diff indexes load or repo generations change."@,
            )
        }
    }
}

/// The body of the feed: the detail of an entry, the entries, or why there are none.
pub fn render_feed_body(view: &LiveDiffStreamView, state: Option<&LiveDiffFeedState>) -> (body:
    FeedBody)
    ensures
        feed_body_says(body, view.detail_entry_id, state),
{
    let (open, count, scopes): (bool, usize, usize) = match state {
        Some(state) => (state.detail_pane_open, state.entries.len(), state.tracked_scope_count),
        None => (false, 0, 0),
    };
    if open && view.detail_entry_id.is_some() {
        FeedBody::Detail
    } else if count > 0 {
        FeedBody::List
    } else if scopes == 0 {
        FeedBody::Empty(
            widgets::panel_message(
                "No git scopes are active",
                "Open a git-backed terminal in this project to start the live diff feed.",
            ),
        )
    } else {
        FeedBody::Empty(
            widgets::panel_message(
                "No feed events yet",
                "Tracked scopes are armed. Events will appear here after diff indexes load or repo generations change.",
            ),
        )
    }
}

/// The feed as it is drawn, and what was done to its list and its detail before.
#[derive(Debug)]
pub struct FeedFrame {
    pub list_update: FeedListUpdate,
    pub detail_step: DetailStep,
    pub header: FeedHeader,
    pub body: FeedBody,
    /// What went wrong with a scope, above the entries.
    pub scope_error: Option<String>,
}

impl LiveDiffStreamView {
    /// Draws the feed: its list and its detail are brought up to date, and below the header stands
    /// the detail of an entry, or else what went wrong with a scope and the entries.
    pub fn render(
        &mut self,
        palette: &OrcaTheme,
        project_name: Option<&str>,
        state: Option<&LiveDiffFeedState>,
    ) -> (frame: FeedFrame)
        ensures
            frame.list_update == list_update(old(self).entry_ids@, feed_ids(state)),
            frame.detail_step == detail_step(old(self).detail_entry_id, state),
            header_says(frame.header, *palette, project_name, state),
            feed_body_says(frame.body, final(self).detail_entry_id, state),
            strings::optional_view(frame.scope_error) == if frame.body is Detail || state is None {
                None
            } else {
                strings::optional_view(state->0.latest_scope_error)
            },
            final(self).entry_ids@ == feed_ids(state),
            final(self).project_id == old(self).project_id,
            final(self).detail_entry_id == match frame.detail_step {
                DetailStep::Keep => old(self).detail_entry_id,
                DetailStep::Open { index } => Some(state->0.entries@[index as int].id),
                _ => None,
            },
    {
        let list_update = self.sync_feed_list_state(state);
        let header = render_feed_header(palette, project_name, state);
        let detail_step = self.sync_detail(state);
        let body = render_feed_body(self, state);
        let scope_error = match (&body, state) {
            (FeedBody::Detail, _) => None,
            (_, Some(state)) => match &state.latest_scope_error {
                Some(error) => Some(error.clone()),
                None => None,
            },
            (_, None) => None,
        };
        FeedFrame { list_update, detail_step, header, body, scope_error }
    }
}

/// What a button of an entry does.
#[derive(Clone, Copy, Debug, PartialEq, Eq, Structural)]
pub enum FeedRowAction {
    ViewDetails,
    OpenDiff,
    OpenTerminal,
}

/// The buttons of an entry.
pub open spec fn row_actions(entry: ChangeFeedEntry, terminal_available: bool) -> Seq<
    FeedRowAction,
> {
    let captured = entry.capture_state is Ready || entry.capture_state is Truncated;
    (if captured && entry.changed_file_count > 0 {
        seq![FeedRowAction::ViewDetails]
    } else {
        Seq::empty()
    }) + seq![FeedRowAction::OpenDiff] + (if entry.source_terminal_id is Some
        && terminal_available {
        seq![FeedRowAction::OpenTerminal]
    } else {
        Seq::empty()
    })
}

/// The buttons of an entry: its detail, where changes were captured; the diff tab; and the terminal
/// that the change came from, while it is there.
pub fn render_row_actions(entry: &ChangeFeedEntry, terminal_available: bool) -> (actions: Vec<
    FeedRowAction,
>)
    ensures
        actions@ == row_actions(*entry, terminal_available),
{
    let mut actions: Vec<FeedRowAction> = Vec::new();
    if feed::captured_diff(entry).is_some() && entry.changed_file_count > 0 {
        actions.push(FeedRowAction::ViewDetails);
    }
    actions.push(FeedRowAction::OpenDiff);
    if entry.source_terminal_id.is_some() && terminal_available {
        actions.push(FeedRowAction::OpenTerminal);
    }
    assert(actions@ =~= row_actions(*entry, terminal_available));
    actions
}

/// What a button of an entry says.
pub fn row_action_label(action: FeedRowAction) -> (label: &'static str)
    ensures
        label@ == match action {
            FeedRowAction::ViewDetails => "View Details"@,
            FeedRowAction::OpenDiff => "Open Diff"@,
            FeedRowAction::OpenTerminal => "Open Terminal"@,
        },
{
    match action {
        FeedRowAction::ViewDetails => "View Details",
        FeedRowAction::OpenDiff => "Open Diff",
        FeedRowAction::OpenTerminal => "Open Terminal",
    }
}

/// The file that the diff tab opens with: the first captured one, or else the first that could not
/// be captured.
pub open spec fn preferred_key(entry: ChangeFeedEntry) -> Option<DiffSelectionKeyView> {
    if feed::captured_files_of(entry).len() > 0 {
        Some(feed::captured_files_of(entry)[0].selection@)
    } else if feed::captured_failures_of(entry).len() > 0 {
        Some(feed::captured_failures_of(entry)[0].selection@)
    } else {
        None
    }
}

/// The file that the diff tab opens with.
pub fn preferred_open_diff_selection(entry: &ChangeFeedEntry) -> (selection: Option<
    DiffSelectionKey,
>)
    ensures
        feed::optional_key(selection) == preferred_key(*entry),
{
    match feed::captured_diff(entry) {
        Some(captured) => if captured.files.len() > 0 {
            Some(captured.files[0].selection.clone())
        } else if captured.failed_files.len() > 0 {
            Some(captured.failed_files[0].selection.clone())
        } else {
            None
        },
        None => None,
    }
}

/// What a click on a button of an entry leads to.
#[derive(Debug)]
pub enum FeedRowEffect {
    /// The detail of the entry is opened.
    SelectEntry { id: u64 },
    /// The diff tab of the entry's scope is opened at a file.
    OpenDiff { scope_root: String, selection: Option<DiffSelectionKey> },
    /// The terminal that the change came from is focused.
    FocusTerminal { terminal_id: String },
    Nothing,
}

/// What a click on a button of an entry leads to.
pub fn click_row_action(entry: &ChangeFeedEntry, action: FeedRowAction) -> (effect: FeedRowEffect)
    ensures
        match action {
            FeedRowAction::ViewDetails => effect == (FeedRowEffect::SelectEntry { id: entry.id }),
            FeedRowAction::OpenDiff => effect matches FeedRowEffect::OpenDiff {
                scope_root,
                selection,
            } && scope_root@ == entry.scope_root@ && feed::optional_key(selection)
                == preferred_key(*entry),
            FeedRowAction::OpenTerminal => match entry.source_terminal_id {
                Some(id) => effect matches FeedRowEffect::FocusTerminal { terminal_id }
                    && terminal_id@ == id@,
                None => effect is Nothing,
            },
        },
{
    match action {
        FeedRowAction::ViewDetails => FeedRowEffect::SelectEntry { id: entry.id },
        FeedRowAction::OpenDiff => FeedRowEffect::OpenDiff {
            scope_root: entry.scope_root.clone(),
            selection: preferred_open_diff_selection(entry),
        },
        FeedRowAction::OpenTerminal => match &entry.source_terminal_id {
            Some(id) => FeedRowEffect::FocusTerminal { terminal_id: id.clone() },
            None => FeedRowEffect::Nothing,
        },
    }
}

/// How long ago an entry came in.
pub open spec fn age_text(seconds: nat) -> Seq<char> {
    if seconds < 60 {
        strings::decimal(seconds) + "s ago"@
    } else if seconds < 3_600 {
        strings::decimal(seconds / 60) + "m ago"@
    } else {
        strings::decimal(seconds / 3_600) + "h ago"@
    }
}

/// How long ago an entry came in, from its age in seconds.
pub fn feed_age_label(age_seconds: u64) -> (label: String)
    ensures
        label@ == age_text(age_seconds as nat),
{
    if age_seconds < 60 {
        let mut label = strings::format_decimal(age_seconds);
        label.append("s ago");
        label
    } else if age_seconds < 3_600 {
        let mut label = strings::format_decimal(age_seconds / 60);
        label.append("m ago");
        label
    } else {
        let mut label = strings::format_decimal(age_seconds / 3_600);
        label.append("h ago");
        label
    }
}

/// The paths of the first two files of an entry.
pub open spec fn shown_paths(entry: ChangeFeedEntry) -> Seq<Seq<char>> {
    let count = if entry.files@.len() < 2 {
        entry.files@.len()
    } else {
        2
    };
    Seq::new(count, |i: int| model::path_text(entry.files@[i].relative_path@))
}

/// The files of an entry in one line: the first two, and how many more there are.
pub open spec fn paths_text(entry: ChangeFeedEntry) -> Seq<char> {
    let shown = shown_paths(entry);
    let parts = if entry.changed_file_count > shown.len() {
        shown.push(
            "+"@ + strings::decimal((entry.changed_file_count - shown.len()) as nat) + " more"@,
        )
    } else {
        shown
    };
    if parts.len() == 0 {
        "No changed files"@
    } else {
        strings::joined(parts, "  "@)
    }
}

/// The files of an entry in one line.
pub fn summarize_paths(entry: &ChangeFeedEntry) -> (summary: String)
    ensures
        summary@ == paths_text(*entry),
{
    let mut parts: Vec<String> = Vec::new();
    let ghost shown = shown_paths(*entry);
    let mut i: usize = 0;
    assert(strings::views(parts@) =~= shown.take(0));
    while i < entry.files.len() && i < 2
        invariant
            i <= entry.files@.len(),
            i <= 2,
            shown == shown_paths(*entry),
            strings::views(parts@) == shown.take(i as int),
        decreases 2 - i,
    {
        let path = entry.files[i].relative_path.display();
        assert(path@ == shown[i as int]);
        let ghost before = strings::views(parts@);
        parts.push(path);
        i = i + 1;
        assert(strings::views(parts@) =~= before.push(path@));
        assert(shown.take(i as int) =~= shown.take(i - 1).push(shown[i - 1]));
    }
    assert(shown.take(i as int) =~= shown);
    let count = parts.len();
    assert(strings::views(parts@).len() == count);
    if entry.changed_file_count > count {
        let mut more = "+".to_owned();
        strings::push_decimal(&mut more, (entry.changed_file_count - count) as u64);
        more.append(" more");
        let ghost before = strings::views(parts@);
        parts.push(more);
        assert(strings::views(parts@) =~= before.push(more@));
    }
    assert(strings::views(parts@).len() == parts@.len());
    if parts.len() == 0 {
        "No changed files".to_owned()
    } else {
        strings::join(&parts, "  ")
    }
}

/// The mark in front of a line of a preview.
pub open spec fn line_mark(kind: DiffLineKind) -> Seq<char> {
    match kind {
        DiffLineKind::Addition => "+"@,
        DiffLineKind::Deletion => "-"@,
        DiffLineKind::HunkHeader => "@@"@,
        DiffLineKind::FileHeader => "diff"@,
        DiffLineKind::BinaryNotice => "bin"@,
        _ => " "@,
    }
}

/// The mark in front of a line of a preview.
pub fn diff_line_prefix(kind: DiffLineKind) -> (prefix: &'static str)
    ensures
        prefix@ == line_mark(kind),
{
    match kind {
        DiffLineKind::Addition => "+",
        DiffLineKind::Deletion => "-",
        DiffLineKind::HunkHeader => "@@",
        DiffLineKind::FileHeader => "diff",
        DiffLineKind::BinaryNotice => "bin",
        _ => " ",
    }
}

/// The colour of a line of a preview.
pub open spec fn preview_color(palette: OrcaTheme, kind: DiffLineKind) -> u32 {
    match kind {
        DiffLineKind::Addition => palette.STATUS_GREEN,
        DiffLineKind::Deletion => palette.STATUS_CORAL,
        DiffLineKind::HunkHeader => palette.ORCA_BLUE,
        DiffLineKind::FileHeader => palette.ORCA_BLUE,
        DiffLineKind::BinaryNotice => palette.STATUS_AMBER,
        _ => palette.BONE,
    }
}

/// The text draws the line of a preview.
pub open spec fn draws_preview_line(
    shown: ColoredText,
    palette: OrcaTheme,
    line: DiffLineView,
) -> bool {
    widgets::says(
        shown,
        line_mark(line.kind) + " "@ + line.text@,
        preview_color(palette, line.kind),
    )
}

/// Draws a line of a preview.
pub fn render_preview_line(palette: &OrcaTheme, line: &DiffLineView) -> (shown: ColoredText)
    ensures
        draws_preview_line(shown, *palette, *line),
{
    let mut text = strings::concat_text(diff_line_prefix(line.kind), " ");
    text.append(line.text.as_str());
    ColoredText {
        text,
        color: match line.kind {
            DiffLineKind::Addition => palette.STATUS_GREEN,
            DiffLineKind::Deletion => palette.STATUS_CORAL,
            DiffLineKind::HunkHeader => palette.ORCA_BLUE,
            DiffLineKind::FileHeader => palette.ORCA_BLUE,
            DiffLineKind::BinaryNotice => palette.STATUS_AMBER,
            _ => palette.BONE,
        },
    }
}

/// A file of a preview.
#[derive(Debug)]
pub struct FeedPreviewFile {
    pub relative_path: RelativePath,
    pub lines: Vec<DiffLineView>,
}

/// The part of what was captured that fits into an entry's card.
#[derive(Debug)]
pub struct FeedPreviewLayout {
    pub files: Vec<FeedPreviewFile>,
    pub hidden_file_count: usize,
    pub hidden_file_names: Vec<RelativePath>,
}

/// The paths of a list.
pub open spec fn path_texts(paths: Seq<RelativePath>) -> Seq<Seq<char>> {
    paths.map_values(|path: RelativePath| model::path_text(path@))
}

/// How many files a preview leaves out, and which.
pub open spec fn hidden_text(layout: FeedPreviewLayout) -> Seq<char> {
    let names = strings::joined(path_texts(layout.hidden_file_names@), ", "@);
    "+"@ + strings::decimal(layout.hidden_file_count as nat) + " more file(s)"@ + (if names.len()
        == 0 {
        Seq::empty()
    } else {
        " ("@ + names + ")"@
    })
}

/// How many files a preview leaves out, and which. There is no note where it leaves out none.
pub fn hidden_files_note(layout: &FeedPreviewLayout) -> (note: Option<String>)
    ensures
        strings::optional_view(note) == if layout.hidden_file_count > 0 {
            Some(hidden_text(*layout))
        } else {
            None
        },
{
    if layout.hidden_file_count == 0 {
        return None;
    }
    let mut names: Vec<String> = Vec::new();
    let mut i: usize = 0;
    let ghost all = path_texts(layout.hidden_file_names@);
    assert(strings::views(names@) =~= all.take(0));
    while i < layout.hidden_file_names.len()
        invariant
            i <= layout.hidden_file_names@.len(),
            all == path_texts(layout.hidden_file_names@),
            strings::views(names@) == all.take(i as int),
        decreases layout.hidden_file_names@.len() - i,
    {
        let name = layout.hidden_file_names[i].display();
        assert(name@ == all[i as int]);
        let ghost before = strings::views(names@);
        names.push(name);
        i = i + 1;
        assert(strings::views(names@) =~= before.push(name@));
        assert(all.take(i as int) =~= all.take(i - 1).push(all[i - 1]));
    }
    assert(all.take(i as int) =~= all);
    let joined = strings::join(&names, ", ");
    let mut note = "+".to_owned();
    strings::push_decimal(&mut note, layout.hidden_file_count as u64);
    note.append(" more file(s)");
    if !joined.as_str().is_empty() {
        note.append(" (");
        note.append(joined.as_str());
        note.append(")");
    }
    assert(note@ =~= hidden_text(*layout));
    Some(note)
}

/// A file of a preview as it is drawn.
#[derive(Debug)]
pub struct PreviewCard {
    pub path: String,
    pub lines: Vec<ColoredText>,
}

/// The card draws the file of a preview.
pub open spec fn draws_preview_file(
    card: PreviewCard,
    palette: OrcaTheme,
    file: FeedPreviewFile,
) -> bool {
    &&& card.path@ == model::path_text(file.relative_path@)
    &&& card.lines@.len() == file.lines@.len()
    &&& forall|i: int|
        #![trigger card.lines@[i]]
        0 <= i < card.lines@.len() ==> draws_preview_line(
            card.lines@[i],
            palette,
            file.lines@[i],
        )
}

/// The cards draw the files of a preview.
pub open spec fn draws_preview(
    cards: Seq<PreviewCard>,
    palette: OrcaTheme,
    files: Seq<FeedPreviewFile>,
) -> bool {
    &&& cards.len() == files.len()
    &&& forall|i: int|
        #![trigger cards[i]]
        0 <= i < cards.len() ==> draws_preview_file(cards[i], palette, files[i])
}

fn render_preview_file(palette: &OrcaTheme, file: &FeedPreviewFile) -> (card: PreviewCard)
    ensures
        draws_preview_file(card, *palette, *file),
{
    let mut lines: Vec<ColoredText> = Vec::new();
    let mut i: usize = 0;
    while i < file.lines.len()
        invariant
            i <= file.lines@.len(),
            lines@.len() == i,
            forall|k: int|
                #![trigger lines@[k]]
                0 <= k < lines@.len() ==> draws_preview_line(lines@[k], *palette, file.lines@[k]),
        decreases file.lines@.len() - i,
    {
        lines.push(render_preview_line(palette, &file.lines[i]));
        i = i + 1;
    }
    PreviewCard { path: file.relative_path.display(), lines }
}

/// Draws the files of a preview, line by line.
pub fn render_preview(palette: &OrcaTheme, layout: &FeedPreviewLayout) -> (cards: Vec<PreviewCard>)
    ensures
        draws_preview(cards@, *palette, layout.files@),
{
    let mut cards: Vec<PreviewCard> = Vec::new();
    let mut i: usize = 0;
    while i < layout.files.len()
        invariant
            i <= layout.files@.len(),
            cards@.len() == i,
            forall|k: int|
                #![trigger cards@[k]]
                0 <= k < cards@.len() ==> draws_preview_file(
                    cards@[k],
                    *palette,
                    layout.files@[k],
                ),
        decreases layout.files@.len() - i,
    {
        cards.push(render_preview_file(palette, &layout.files[i]));
        i = i + 1;
    }
    cards
}

/// What stands below the counts of an entry.
#[derive(Debug)]
pub enum FeedRowBody {
    /// The capture is under way, failed, or found nothing changed.
    Note { text: String, color: u32, framed: bool },
    /// A preview of the changes, which files it leaves out, and whether it was cut off.
    Preview { files: Vec<PreviewCard>, hidden: Option<String>, cut_off: Option<String> },
}

/// The card of an entry.
#[derive(Debug)]
pub struct FeedRow {
    pub scope_chip: String,
    pub scope_color: u32,
    pub event_label: String,
    pub event_color: u32,
    pub scope_label: String,
    pub branch_name: String,
    pub age: String,
    pub generation: String,
    pub file_count: String,
    pub insertions: String,
    pub deletions: String,
    pub paths: String,
    pub body: FeedRowBody,
}

/// The body of an entry's card says this.
pub open spec fn body_says(
    body: FeedRowBody,
    palette: OrcaTheme,
    entry: ChangeFeedEntry,
    layout: FeedPreviewLayout,
) -> bool {
    match entry.capture_state {
        FeedCaptureState::Pending => body matches FeedRowBody::Note { text, color, framed } && text@
            == "Capturing bounded historical preview..."@ && color == palette.FOG && !framed,
        FeedCaptureState::Failed { message } => body matches FeedRowBody::Note {
            text,
            color,
            framed,
        } && text@ == message@ && color == palette.STATUS_AMBER && framed,
        _ => if entry.changed_file_count == 0 {
            body matches FeedRowBody::Note { text, color, framed } && text@ == (
            match entry.origin {
                FeedEntryOrigin::BootstrapSnapshot => "No dirty files captured"@,
                FeedEntryOrigin::LiveDelta => "Returned to clean"@,
            }) && color == palette.STATUS_GREEN && framed
        } else {
            &&& body matches FeedRowBody::Preview { files, hidden, cut_off }
            &&& draws_preview(files@, palette, layout.files@)
            &&& strings::optional_view(hidden) == if layout.hidden_file_count > 0 {
                Some(hidden_text(layout))
            } else {
                None
            }
            &&& strings::optional_view(cut_off) == if entry.capture_state is Truncated {
                Some("Preview truncated at the event capture limit."@)
            } else {
                None
            }
        },
    }
}

fn render_row_body(
    palette: &OrcaTheme,
    entry: &ChangeFeedEntry,
    layout: &FeedPreviewLayout,
) -> (body: FeedRowBody)
    ensures
        body_says(body, *palette, *entry, *layout),
{
    let truncated = match &entry.capture_state {
        FeedCaptureState::Pending => {
            return FeedRowBody::Note {
                text: "Capturing bounded historical preview...".to_owned(),
                color: palette.FOG,
                framed: false,
            };
        },
        FeedCaptureState::Failed { message } => {
            return FeedRowBody::Note {
                text: message.clone(),
                color: palette.STATUS_AMBER,
                framed: true,
            };
        },
        FeedCaptureState::Ready(_) => false,
        FeedCaptureState::Truncated(_) => true,
    };
    if entry.changed_file_count == 0 {
        return FeedRowBody::Note {
            text: match entry.origin {
                FeedEntryOrigin::BootstrapSnapshot => "No dirty files captured".to_owned(),
                FeedEntryOrigin::LiveDelta => "Returned to clean".to_owned(),
            },
            color: palette.STATUS_GREEN,
            framed: true,
        };
    }
    FeedRowBody::Preview {
        files: render_preview(palette, layout),
        hidden: hidden_files_note(layout),
        cut_off: if truncated {
            Some("Preview truncated at the event capture limit.".to_owned())
        } else {
            None
        },
    }
}

/// A text with a number behind it.
fn with_number(prefix: &str, n: u64) -> (text: String)
    ensures
        text@ == prefix@ + strings::decimal(n as nat),
{
    let mut text = prefix.to_owned();
    strings::push_decimal(&mut text, n);
    text
}

/// The card of an entry says this.
pub open spec fn row_says(
    row: FeedRow,
    palette: OrcaTheme,
    entry: ChangeFeedEntry,
    layout: FeedPreviewLayout,
    age_seconds: u64,
) -> bool {
    &&& row.scope_chip@ == match entry.scope_kind {
        FeedScopeKind::ManagedWorktree => "WT"@,
        FeedScopeKind::ProjectRoot => "BR"@,
    }
    &&& row.scope_color == match entry.scope_kind {
        FeedScopeKind::ManagedWorktree => palette.STATUS_GREEN,
        FeedScopeKind::ProjectRoot => palette.ORCA_BLUE,
    }
    &&& row.event_label@ == match entry.origin {
        FeedEntryOrigin::BootstrapSnapshot => "CURRENT STATE"@,
        FeedEntryOrigin::LiveDelta => "LIVE DELTA"@,
    }
    &&& row.event_color == match entry.origin {
        FeedEntryOrigin::BootstrapSnapshot => palette.ORCA_BLUE,
        FeedEntryOrigin::LiveDelta => palette.STATUS_GREEN,
    }
    &&& row.scope_label@ == match entry.worktree_name {
        Some(name) => name@,
        None => entry.branch_name@,
    }
    &&& row.branch_name@ == entry.branch_name@
    &&& row.age@ == age_text(age_seconds as nat)
    &&& row.generation@ == "gen "@ + strings::decimal(entry.generation as nat)
    &&& row.file_count@ == strings::decimal(entry.changed_file_count as nat) + " files"@
    &&& row.insertions@ == "+"@ + strings::decimal(entry.insertions as nat)
    &&& row.deletions@ == "-"@ + strings::decimal(entry.deletions as nat)
    &&& row.paths@ == paths_text(entry)
    &&& body_says(row.body, palette, entry, layout)
}

/// The card of an entry: where the change was seen, whether it is the state when watching began or
/// a change since, its age and counts, its files, and the part of what was captured that fits.
pub fn render_feed_row(
    palette: &OrcaTheme,
    entry: &ChangeFeedEntry,
    layout: &FeedPreviewLayout,
    age_seconds: u64,
) -> (row: FeedRow)
    ensures
        row_says(row, *palette, *entry, *layout, age_seconds),
{
    let (scope_chip, scope_color): (&str, u32) = match entry.scope_kind {
        FeedScopeKind::ManagedWorktree => ("WT", palette.STATUS_GREEN),
        FeedScopeKind::ProjectRoot => ("BR", palette.ORCA_BLUE),
    };
    let (event_label, event_color): (&str, u32) = match entry.origin {
        FeedEntryOrigin::BootstrapSnapshot => ("CURRENT STATE", palette.ORCA_BLUE),
        FeedEntryOrigin::LiveDelta => ("LIVE DELTA", palette.STATUS_GREEN),
    };
    let mut file_count = strings::format_decimal(entry.changed_file_count as u64);
    file_count.append(" files");
    FeedRow {
        scope_chip: scope_chip.to_owned(),
        scope_color,
        event_label: event_label.to_owned(),
        event_color,
        scope_label: match &entry.worktree_name {
            Some(name) => name.clone(),
            None => entry.branch_name.clone(),
        },
        branch_name: entry.branch_name.clone(),
        age: feed_age_label(age_seconds),
        generation: with_number("gen ", entry.generation),
        file_count,
        insertions: with_number("+", entry.insertions as u64),
        deletions: with_number("-", entry.deletions as u64),
        paths: summarize_paths(entry),
        body: render_row_body(palette, entry, layout),
    }
}

/// An entry in the list.
#[derive(Debug)]
pub struct FeedItem {
    pub actions: Vec<FeedRowAction>,
    pub row: FeedRow,
}

/// Draws the entry at an index of the list: its buttons and its card. There is nothing where the
/// feed has fewer entries.
pub fn render_feed_item(
    palette: &OrcaTheme,
    state: Option<&LiveDiffFeedState>,
    index: usize,
    layout: &FeedPreviewLayout,
    terminal_available: bool,
    age_seconds: u64,
) -> (item: Option<FeedItem>)
    ensures
        match item {
            Some(item) => state is Some && index < state->0.entries@.len() && item.actions@
                == row_actions(state->0.entries@[index as int], terminal_available) && row_says(
                item.row,
                *palette,
                state->0.entries@[index as int],
                *layout,
                age_seconds,
            ),
            None => state is None || index >= state->0.entries@.len(),
        },
{
    match state {
        Some(state) => if index < state.entries.len() {
            let entry = &state.entries[index];
            Some(
                FeedItem {
                    actions: render_row_actions(entry, terminal_available),
                    row: render_feed_row(palette, entry, layout, age_seconds),
                },
            )
        } else {
            None
        },
        None => None,
    }
}

/// Appending to the list keeps every entry that it shows at its place, and adds exactly the new
/// ones behind them.
pub proof fn append_keeps_shown_entries(shown: Seq<u64>, ids: Seq<u64>, at: usize, count: usize)
    requires
        ids.len() <= usize::MAX,
        list_update(shown, ids) == (FeedListUpdate::Append { at, count }),
    ensures
        at == shown.len(),
        count > 0,
        at + count == ids.len(),
        ids.take(at as int) == shown,
{
    assert(ids.take(shown.len() as int) =~= shown);
    if ids.len() == shown.len() {
        assert(ids =~= shown);
    }
}

/// The list is left as it is exactly where it shows the entries of the feed already. Where entries
/// that it shows are gone or came in before others, it is made anew with as many as there are.
pub proof fn list_is_made_anew_for_other_changes(shown: Seq<u64>, ids: Seq<u64>)
    requires
        ids.len() <= usize::MAX,
    ensures
        list_update(shown, ids) is Unchanged == (shown == ids),
        list_update(shown, ids) is Reset == !(shown.len() <= ids.len() && forall|i: int|
            0 <= i < shown.len() ==> shown[i] == ids[i]),
        list_update(shown, ids) matches FeedListUpdate::Reset { count } ==> count == ids.len(),
{
    if shown.len() <= ids.len() && (forall|i: int| 0 <= i < shown.len() ==> shown[i] == ids[i]) {
        assert(shown =~= ids.take(shown.len() as int));
    }
    if shown.is_prefix_of(ids) {
        assert forall|i: int| 0 <= i < shown.len() implies shown[i] == ids[i] by {
            assert(ids.take(shown.len() as int)[i] == ids[i]);
        }
    }
}

/// An identity finds the first entry that has it, and none only where no entry has it.
pub proof fn identity_finds_its_entry(entries: Seq<ChangeFeedEntry>, id: u64)
    ensures
        match entry_with_id(entries, id) {
            Some(index) => {
                &&& 0 <= index < entries.len()
                &&& entries[index].id == id
                &&& forall|i: int| 0 <= i < index ==> (#[trigger] entries[i]).id != id
            },
            None => forall|i: int| 0 <= i < entries.len() ==> (#[trigger] entries[i]).id != id,
        },
    decreases entries.len(),
{
    if entries.len() > 0 {
        let rest = entries.drop_last();
        identity_finds_its_entry(rest, id);
        assert forall|i: int| 0 <= i < rest.len() implies rest[i] == #[trigger] entries[i] by {}
    }
}

/// While the detail is open, it is that of the selected entry: it stays where it is that one
/// already, is opened anew where it is not, and is closed where the entry is gone. Where the detail
/// is not to be open, none stays open.
pub proof fn detail_is_that_of_the_selected_entry(shown: Option<u64>, state: LiveDiffFeedState)
    requires
        state.entries@.len() <= usize::MAX,
    ensures
        !state.detail_pane_open ==> (if shown is Some {
            detail_step(shown, Some(&state)) is Close
        } else {
            detail_step(shown, Some(&state)) is Keep
        }),
        state.detail_pane_open && state.selected_entry_id is Some ==> match detail_step(
            shown,
            Some(&state),
        ) {
            DetailStep::Keep => shown == state.selected_entry_id,
            DetailStep::Open { index } => {
                &&& shown != state.selected_entry_id
                &&& index < state.entries@.len()
                &&& state.entries@[index as int].id == state.selected_entry_id->0
            },
            DetailStep::CloseMissing => {
                &&& shown != state.selected_entry_id
                &&& forall|i: int|
                    0 <= i < state.entries@.len() ==> (#[trigger] state.entries@[i]).id
                        != state.selected_entry_id->0
            },
            DetailStep::Close => false,
        },
        shown is Some ==> detail_step(shown, None) is Close,
        shown is None ==> detail_step(shown, None) is Keep,
{
    if state.selected_entry_id is Some {
        identity_finds_its_entry(state.entries@, state.selected_entry_id->0);
    }
}

/// An entry always leads to the diff, to its detail where changes of it were captured, and to the
/// terminal that it came from where that is still there. No button is shown twice.
pub proof fn entry_leads_to_what_is_there(entry: ChangeFeedEntry, terminal_available: bool)
    ensures
        ({
            let actions = row_actions(entry, terminal_available);
            let details = (entry.capture_state is Ready || entry.capture_state is Truncated)
                && entry.changed_file_count > 0;
            let terminal = entry.source_terminal_id is Some && terminal_available;
            &&& actions.contains(FeedRowAction::OpenDiff)
            &&& actions.contains(FeedRowAction::ViewDetails) == details
            &&& actions.contains(FeedRowAction::OpenTerminal) == terminal
            &&& actions.no_duplicates()
        }),
{
    let actions = row_actions(entry, terminal_available);
    let details = (entry.capture_state is Ready || entry.capture_state is Truncated)
        && entry.changed_file_count > 0;
    assert(details ==> actions[0] == FeedRowAction::ViewDetails && actions[1]
        == FeedRowAction::OpenDiff);
    assert(!details ==> actions[0] == FeedRowAction::OpenDiff);
    if entry.source_terminal_id is Some && terminal_available {
        assert(actions[actions.len() - 1] == FeedRowAction::OpenTerminal);
    }
}

/// The diff opens with a captured file where there is one, and with a file that could not be
/// captured only where there is none.
pub proof fn diff_opens_with_a_captured_file(entry: ChangeFeedEntry)
    ensures
        feed::captured_files_of(entry).len() > 0 ==> preferred_key(entry) is Some && exists|i: int|
            0 <= i < feed::captured_files_of(entry).len() && preferred_key(entry)->0
                == #[trigger] feed::captured_files_of(entry)[i].selection@,
        feed::captured_files_of(entry).len() == 0 && feed::captured_failures_of(entry).len() > 0
            ==> preferred_key(entry) is Some && exists|i: int|
            0 <= i < feed::captured_failures_of(entry).len() && preferred_key(entry)->0
                == #[trigger] feed::captured_failures_of(entry)[i].selection@,
        preferred_key(entry) is None ==> feed::captured_files_of(entry).len() == 0
            && feed::captured_failures_of(entry).len() == 0,
{
    if feed::captured_files_of(entry).len() > 0 {
        assert(preferred_key(entry)->0 == feed::captured_files_of(entry)[0].selection@);
    } else if feed::captured_failures_of(entry).len() > 0 {
        assert(preferred_key(entry)->0 == feed::captured_failures_of(entry)[0].selection@);
    }
}

/// The age of an entry is told in seconds, minutes or hours, rounded down to whole ones of the
/// largest that it reaches.
pub proof fn feed_age_is_told_in_whole_units(seconds: nat) -> (told: (int, int))
    ensures
        ({
            let (count, unit) = told;
            &&& unit * count <= seconds < unit * (count + 1)
            &&& count >= 1 || unit == 1
            &&& ({
                ||| unit == 1 && seconds < 60 && age_text(seconds) == strings::decimal(
                    count as nat,
                ) + "s ago"@
                ||| unit == 60 && seconds < 60 * 60 && age_text(seconds) == strings::decimal(
                    count as nat,
                ) + "m ago"@
                ||| unit == 60 * 60 && age_text(seconds) == strings::decimal(count as nat)
                    + "h ago"@
            })
        }),
{
    if seconds < 60 {
        (seconds as int, 1)
    } else if seconds < 3_600 {
        ((seconds / 60) as int, 60)
    } else {
        ((seconds / 3_600) as int, 3_600)
    }
}

/// The files of an entry are told by the paths of the first two and by how many more there are, so
/// that all of them are accounted for.
pub proof fn paths_account_for_all_files(entry: ChangeFeedEntry)
    requires
        entry.files@.len() == entry.changed_file_count,
    ensures
        entry.files@.len() == 0 ==> paths_text(entry) == "No changed files"@,
        entry.files@.len() == 1 ==> paths_text(entry) == model::path_text(
            entry.files@[0].relative_path@,
        ),
        entry.files@.len() == 2 ==> paths_text(entry) == model::path_text(
            entry.files@[0].relative_path@,
        ) + "  "@ + model::path_text(entry.files@[1].relative_path@),
        entry.files@.len() > 2 ==> paths_text(entry) == model::path_text(
            entry.files@[0].relative_path@,
        ) + "  "@ + model::path_text(entry.files@[1].relative_path@) + "  "@ + ("+"@
            + strings::decimal((entry.changed_file_count - 2) as nat) + " more"@),
{
    reveal_with_fuel(strings::joined, 4);
    let shown = shown_paths(entry);
    let gap = "  "@;
    if shown.len() == 1 {
        assert(strings::joined(shown, gap) =~= shown[0]);
    }
    if shown.len() == 2 {
        assert(shown.drop_last() =~= seq![shown[0]]);
        assert(strings::joined(seq![shown[0]], gap) =~= shown[0]);
        assert(strings::joined(shown, gap) =~= shown[0] + gap + shown[1]);
        let more = "+"@ + strings::decimal((entry.changed_file_count - 2) as nat) + " more"@;
        let all = shown.push(more);
        assert(all.drop_last() =~= shown);
        assert(strings::joined(all, gap) =~= shown[0] + gap + shown[1] + gap + more);
    }
}

/// Added and deleted lines are told apart by their marks and their colours, and each is followed by
/// the text of the line.
pub proof fn preview_tells_additions_from_deletions(
    shown: ColoredText,
    palette: OrcaTheme,
    line: DiffLineView,
)
    requires
        draws_preview_line(shown, palette, line),
    ensures
        line.kind is Addition ==> shown.text@ == "+ "@ + line.text@ && shown.color
            == palette.STATUS_GREEN,
        line.kind is Deletion ==> shown.text@ == "- "@ + line.text@ && shown.color
            == palette.STATUS_CORAL,
        line.kind is Context ==> shown.text@ == "  "@ + line.text@ && shown.color == palette.BONE,
{
    reveal_strlit("+");
    reveal_strlit("-");
    reveal_strlit(" ");
    reveal_strlit("+ ");
    reveal_strlit("- ");
    reveal_strlit("  ");
    assert("+"@ + " "@ =~= "+ "@);
    assert("-"@ + " "@ =~= "- "@);
    assert(" "@ + " "@ =~= "  "@);
}

/// The card of an entry tells the added lines behind a plus sign and the deleted ones behind a minus
/// sign, how many files changed, and the name of the worktree, or else of the branch.
pub proof fn card_tells_the_counts(
    row: FeedRow,
    palette: OrcaTheme,
    entry: ChangeFeedEntry,
    layout: FeedPreviewLayout,
    age_seconds: u64,
)
    requires
        row_says(row, palette, entry, layout, age_seconds),
    ensures
        row.insertions@[0] == '+',
        strings::number_of(row.insertions@.skip(1)) == entry.insertions,
        row.deletions@[0] == '-',
        strings::number_of(row.deletions@.skip(1)) == entry.deletions,
        strings::number_of(row.file_count@.take(row.file_count@.len() - 6))
            == entry.changed_file_count,
        strings::number_of(row.generation@.skip(4)) == entry.generation,
        entry.worktree_name is Some ==> row.scope_label@ == entry.worktree_name->0@,
        entry.worktree_name is None ==> row.scope_label@ == row.branch_name@,
        row.branch_name@ == entry.branch_name@,
        (row.scope_chip@ == "WT"@) == entry.scope_kind is ManagedWorktree,
        (row.event_label@ == "LIVE DELTA"@) == entry.origin is LiveDelta,
{
    reveal_strlit("+");
    reveal_strlit("-");
    reveal_strlit(" files");
    reveal_strlit("gen ");
    reveal_strlit("WT");
    reveal_strlit("BR");
    reveal_strlit("LIVE DELTA");
    reveal_strlit("CURRENT STATE");
    strings::decimal_notation_reads_back(entry.insertions as nat);
    strings::decimal_notation_reads_back(entry.deletions as nat);
    strings::decimal_notation_reads_back(entry.changed_file_count as nat);
    strings::decimal_notation_reads_back(entry.generation as nat);
    assert(row.insertions@.skip(1) =~= strings::decimal(entry.insertions as nat));
    assert(row.deletions@.skip(1) =~= strings::decimal(entry.deletions as nat));
    assert(row.file_count@.take(row.file_count@.len() - 6) =~= strings::decimal(
        entry.changed_file_count as nat,
    ));
    assert(row.generation@.skip(4) =~= strings::decimal(entry.generation as nat));
    assert("WT"@[0] != "BR"@[0]);
    assert("LIVE DELTA"@.len() != "CURRENT STATE"@.len());
}

/// The pane of details opens with the selected entry, stays open for it, and closes where it was
/// closed or the entry is gone.
pub proof fn details_follow_the_selection(
    view: &mut LiveDiffStreamView,
    state: Option<&LiveDiffFeedState>,
    step: DetailStep,
)
    requires
        state is Some ==> state->0.entries@.len() <= usize::MAX,
        call_ensures(LiveDiffStreamView::sync_detail, (view, state), step),
    ensures
        state is None ==> final(view).detail_entry_id is None,
        state is Some && !state->0.detail_pane_open ==> final(view).detail_entry_id is None,
        state is Some && state->0.detail_pane_open && state->0.selected_entry_id is Some && (exists|
            i: int,
        |
            0 <= i < state->0.entries@.len() && (#[trigger] state->0.entries@[i]).id
                == state->0.selected_entry_id->0) ==> final(view).detail_entry_id
            == state->0.selected_entry_id,
        step matches DetailStep::Open { index } ==> state is Some && index
            < state->0.entries@.len() && Some(state->0.entries@[index as int].id)
            == state->0.selected_entry_id,
{
    if state is Some && state->0.selected_entry_id is Some {
        identity_finds_its_entry(state->0.entries@, state->0.selected_entry_id->0);
    }
}

} // verus!
