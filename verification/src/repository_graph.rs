//! The commit graph of a repository: lanes, the first-parent spine and commit rows.

use vstd::prelude::*;

verus! {

/// The number of lanes that the graph column shows.
pub const MAX_VISIBLE_GRAPH_LANES: u16 = 6;

/// The name of an object: 160 bits, as the leading 32 and the other 128.
#[derive(Clone, Copy, Debug, PartialEq, Eq, Structural)]
pub struct Oid {
    pub high: u32,
    pub low: u128,
}

/// A hexadecimal digit.
pub open spec fn hex_char(digit: int) -> char {
    if digit < 10 {
        (48 + digit) as u8 as char
    } else {
        (87 + digit) as u8 as char
    }
}

/// The last `count` hexadecimal digits of a number.
pub open spec fn hex_digits(n: nat, count: nat) -> Seq<char>
    decreases count,
{
    if count == 0 {
        Seq::empty()
    } else {
        hex_digits(n / 16, (count - 1) as nat).push(hex_char((n % 16) as int))
    }
}

/// Appends the last hexadecimal digits of a number.
fn push_hex(out: &mut String, n: u128, count: usize)
    ensures
        final(out)@ == old(out)@ + hex_digits(n as nat, count as nat),
    decreases count,
{
    if count == 0 {
        assert(out@ =~= old(out)@ + hex_digits(n as nat, count as nat));
        return ;
    }
    push_hex(out, n / 16, count - 1);
    let digit: u8 = (n % 16) as u8;
    let ch: u8 = if digit < 10 {
        48 + digit
    } else {
        87 + digit
    };
    out.push(ch as char);
    assert(out@ =~= old(out)@ + hex_digits(n as nat, count as nat));
}

impl Oid {
    /// The forty hexadecimal digits of the name.
    pub open spec fn hex(self) -> Seq<char> {
        hex_digits(self.high as nat, 8) + hex_digits(self.low as nat, 32)
    }

    /// The name in hexadecimal notation.
    pub fn to_hex(&self) -> (text: String)
        ensures
            text@ == self.hex(),
    {
        let mut text = String::new();
        push_hex(&mut text, self.high as u128, 8);
        push_hex(&mut text, self.low, 32);
        assert(text@ =~= self.hex());
        text
    }

    /// The first eight digits of the name.
    pub fn to_short_hex(&self) -> (text: String)
        ensures
            text@ == hex_digits(self.high as nat, 8),
            text@ == self.hex().take(8),
    {
        let mut text = String::new();
        push_hex(&mut text, self.high as u128, 8);
        proof {
            lemma_hex_len(self.high as nat, 8);
            assert(text@ =~= hex_digits(self.high as nat, 8));
            assert(text@ =~= self.hex().take(8));
        }
        text
    }
}

pub proof fn lemma_hex_len(n: nat, count: nat)
    ensures
        hex_digits(n, count).len() == count,
    decreases count,
{
    if count > 0 {
        lemma_hex_len(n / 16, (count - 1) as nat);
    }
}

/// What is checked out.
#[derive(Debug, PartialEq, Eq)]
pub enum HeadState {
    Branch { name: String, oid: Oid },
    Detached { oid: Oid },
    Unborn,
}

/// How a lane passes through a row of the graph.
#[derive(Clone, Copy, Debug, PartialEq, Eq, Structural)]
pub enum GraphLaneKind {
    Through,
    End,
    MergeFromLeft,
    MergeFromRight,
}

/// A lane in a row of the graph, and the lane that it leads to.
#[derive(Clone, Copy, Debug, PartialEq, Eq, Structural)]
pub struct GraphLaneSegment {
    pub lane: u16,
    pub kind: GraphLaneKind,
    pub target_lane: Option<u16>,
}

/// What a label on a commit names.
#[derive(Clone, Copy, Debug, PartialEq, Eq, Structural)]
pub enum CommitRefKind {
    Head,
    LocalBranch,
    RemoteBranch,
}

/// A label on a commit.
#[derive(Debug, PartialEq, Eq)]
pub struct CommitRefLabel {
    pub name: String,
    pub kind: CommitRefKind,
}

/// A commit of the graph.
#[derive(Debug, PartialEq, Eq)]
pub struct CommitGraphNode {
    pub oid: Oid,
    pub short_oid: String,
    pub summary: String,
    pub author_name: String,
    pub authored_at_unix: i64,
    pub parent_oids: Vec<Oid>,
    pub primary_lane: u16,
    pub row_lanes: Vec<GraphLaneSegment>,
    pub ref_labels: Vec<CommitRefLabel>,
}

/// What a local branch tracks.
#[derive(Debug, PartialEq, Eq)]
pub struct BranchTrackingInfo {
    pub remote_name: String,
    pub remote_ref: String,
    pub ahead: usize,
    pub behind: usize,
}

/// A local branch.
#[derive(Debug, PartialEq, Eq)]
pub struct LocalBranchEntry {
    pub name: String,
    pub full_ref: String,
    pub target: Oid,
    pub is_head: bool,
    pub upstream: Option<BranchTrackingInfo>,
}

/// A branch of a remote.
#[derive(Debug, PartialEq, Eq)]
pub struct RemoteBranchEntry {
    pub remote_name: String,
    pub short_name: String,
    pub full_ref: String,
    pub target: Oid,
    pub tracked_by_local: Option<String>,
}

/// The branches and commits of a repository.
#[derive(Debug, PartialEq, Eq)]
pub struct RepositoryGraphDocument {
    pub scope_root: String,
    pub repo_root: String,
    pub head: HeadState,
    pub local_branches: Vec<LocalBranchEntry>,
    pub remote_branches: Vec<RemoteBranchEntry>,
    pub commits: Vec<CommitGraphNode>,
    pub truncated: bool,
}

/// The last of the first `count` commits with the given name.
pub open spec fn commit_position(commits: Seq<CommitGraphNode>, oid: Oid, count: int) -> Option<int>
    decreases count,
{
    if count <= 0 {
        None
    } else if commits[count - 1].oid == oid {
        Some(count - 1)
    } else {
        commit_position(commits, oid, count - 1)
    }
}

/// The position of a commit in the list.
pub open spec fn position_of(commits: Seq<CommitGraphNode>, oid: Oid) -> Option<int> {
    commit_position(commits, oid, commits.len() as int)
}

/// The positions of a commit, of its first parent, of that one's first parent and so on, as long
/// as they are in the list, at most `limit` of them.
pub open spec fn spine_from(commits: Seq<CommitGraphNode>, oid: Oid, limit: nat) -> Seq<int>
    decreases limit,
{
    if limit == 0 {
        Seq::empty()
    } else {
        match position_of(commits, oid) {
            None => Seq::empty(),
            Some(position) => seq![position] + if commits[position].parent_oids@.len() > 0 {
                spine_from(commits, commits[position].parent_oids@[0], (limit - 1) as nat)
            } else {
                Seq::empty()
            },
        }
    }
}

/// The spine of the checked-out branch.
pub open spec fn head_spine(commits: Seq<CommitGraphNode>, head: HeadState) -> Seq<int> {
    match head {
        HeadState::Branch { oid, .. } => spine_from(commits, oid, commits.len()),
        _ => Seq::empty(),
    }
}

proof fn lemma_commit_position(commits: Seq<CommitGraphNode>, oid: Oid, count: int)
    requires
        count <= commits.len(),
    ensures
        commit_position(commits, oid, count) matches Some(position) ==> 0 <= position < count
            && commits[position].oid == oid && forall|i: int|
            position < i < count ==> (#[trigger] commits[i]).oid != oid,
        commit_position(commits, oid, count) is None ==> forall|i: int|
            0 <= i < count ==> (#[trigger] commits[i]).oid != oid,
    decreases count,
{
    if count > 0 && commits[count - 1].oid != oid {
        lemma_commit_position(commits, oid, count - 1);
    }
}

/// The position of a commit in the list.
fn find_commit(commits: &Vec<CommitGraphNode>, oid: Oid) -> (position: Option<usize>)
    ensures
        match position {
            Some(at) => position_of(commits@, oid) == Some(at as int) && at < commits@.len(),
            None => position_of(commits@, oid) is None,
        },
{
    let mut left: usize = commits.len();
    while left > 0
        invariant
            left <= commits@.len(),
            commit_position(commits@, oid, left as int) == position_of(commits@, oid),
        decreases left,
    {
        if commits[left - 1].oid == oid {
            return Some(left - 1);
        }
        left = left - 1;
    }
    None
}

/// The positions of the spine of the checked-out branch. A history that runs in a circle ends
/// after as many commits as the list has.
fn spine_positions(commits: &Vec<CommitGraphNode>, head_oid: Oid) -> (positions: Vec<usize>)
    ensures
        positions@.map_values(|position: usize| position as int) == spine_from(
            commits@,
            head_oid,
            commits@.len(),
        ),
        forall|i: int| 0 <= i < positions@.len() ==> (#[trigger] positions@[i]) < commits@.len(),
{
    let mut positions: Vec<usize> = Vec::new();
    let mut next: Option<Oid> = Some(head_oid);
    let mut left: usize = commits.len();
    let ghost whole = spine_from(commits@, head_oid, commits@.len());
    assert(Seq::<usize>::empty().map_values(|position: usize| position as int) + whole =~= whole);
    loop
        invariant
            left <= commits@.len(),
            forall|i: int|
                0 <= i < positions@.len() ==> (#[trigger] positions@[i]) < commits@.len(),
            positions@.map_values(|position: usize| position as int) + match next {
                Some(oid) => spine_from(commits@, oid, left as nat),
                None => Seq::empty(),
            } == whole,
        ensures
            forall|i: int|
                0 <= i < positions@.len() ==> (#[trigger] positions@[i]) < commits@.len(),
            positions@.map_values(|position: usize| position as int) =~= whole,
        decreases left,
    {
        let oid = match next {
            Some(oid) => oid,
            None => {
                break ;
            },
        };
        if left == 0 {
            break ;
        }
        let position = match find_commit(commits, oid) {
            Some(position) => position,
            None => {
                break ;
            },
        };
        let ghost before = positions@.map_values(|position: usize| position as int);
        positions.push(position);
        proof {
            assert(positions@.map_values(|position: usize| position as int) =~= before.push(
                position as int,
            ));
        }
        let parents = &commits[position].parent_oids;
        next = if parents.len() > 0 {
            Some(parents[0])
        } else {
            None
        };
        left = left - 1;
        proof {
            let rest = match next {
                Some(oid) => spine_from(commits@, oid, left as nat),
                None => Seq::empty(),
            };
            assert(before.push(position as int) + rest =~= before + (seq![position as int]
                + rest));
        }
    }
    positions
}

/// The commits from the checked-out branch along first parents, as far as they are listed.
pub fn visible_first_parent_spine(graph: &RepositoryGraphDocument) -> (spine: Vec<Oid>)
    ensures
        spine@ == head_spine(graph.commits@, graph.head).map_values(
            |position: int| graph.commits@[position].oid,
        ),
{
    let commits = &graph.commits;
    let head = &graph.head;
    let head_oid = match head {
        HeadState::Branch { oid, .. } => *oid,
        _ => {
            let spine: Vec<Oid> = Vec::new();
            assert(spine@ =~= head_spine(commits@, *head).map_values(
                |position: int| commits@[position].oid,
            ));
            return spine;
        },
    };
    let positions = spine_positions(commits, head_oid);
    let mut spine: Vec<Oid> = Vec::new();
    let mut i: usize = 0;
    while i < positions.len()
        invariant
            i <= positions@.len(),
            spine@.len() == i,
            forall|k: int|
                0 <= k < positions@.len() ==> (#[trigger] positions@[k]) < commits@.len(),
            forall|k: int| 0 <= k < i ==> spine@[k] == commits@[positions@[k] as int].oid,
        decreases positions@.len() - i,
    {
        spine.push(commits[positions[i]].oid);
        i = i + 1;
    }
    proof {
        let expected = head_spine(commits@, *head);
        assert(expected == positions@.map_values(|position: usize| position as int));
        assert(spine@ =~= expected.map_values(|position: int| commits@[position].oid));
    }
    spine
}

/// The lanes of the spine in each row: a spine commit's lane runs from its row to the row above
/// the next. `count` of the stretches between spine commits are taken in.
pub open spec fn lanes_between(
    commits: Seq<CommitGraphNode>,
    spine: Seq<int>,
    count: int,
) -> Seq<Option<u16>>
    decreases count,
{
    if count <= 0 {
        Seq::new(commits.len(), |row: int| None)
    } else {
        let before = lanes_between(commits, spine, count - 1);
        Seq::new(
            commits.len(),
            |row: int|
                if spine[count - 1] <= row < spine[count] {
                    Some(commits[spine[count - 1]].primary_lane)
                } else {
                    before[row]
                },
        )
    }
}

/// The lane of the checked-out branch in each row.
pub open spec fn active_lanes(commits: Seq<CommitGraphNode>, head: HeadState) -> Seq<Option<u16>> {
    let spine = head_spine(commits, head);
    let lanes = lanes_between(commits, spine, spine.len() - 1);
    if spine.len() > 0 {
        lanes.update(spine.last(), Some(commits[spine.last()].primary_lane))
    } else {
        lanes
    }
}

/// The lane of the checked-out branch in each row of the graph.
pub fn active_lane_by_row(commits: &Vec<CommitGraphNode>, head: &HeadState) -> (lanes: Vec<
    Option<u16>,
>)
    ensures
        lanes@ == active_lanes(commits@, *head),
        lanes@.len() == commits@.len(),
{
    let mut lanes: Vec<Option<u16>> = Vec::new();
    while lanes.len() < commits.len()
        invariant
            lanes@.len() <= commits@.len(),
            forall|i: int| 0 <= i < lanes@.len() ==> (#[trigger] lanes@[i]) is None,
        decreases commits@.len() - lanes@.len(),
    {
        lanes.push(None);
    }
    let ghost spine = head_spine(commits@, *head);
    assert(lanes@ =~= lanes_between(commits@, spine, 0));
    let head_oid = match head {
        HeadState::Branch { oid, .. } => *oid,
        _ => {
            assert(lanes@ =~= lanes_between(commits@, spine, -1));
            return lanes;
        },
    };
    let positions = spine_positions(commits, head_oid);
    assert(spine == positions@.map_values(|position: usize| position as int));
    let count = positions.len();
    let mut k: usize = 1;
    while k < count
        invariant
            1 <= k,
            k <= count || count == 0,
            count == 0 ==> k == 1,
            count == positions@.len(),
            spine == positions@.map_values(|position: usize| position as int),
            forall|i: int|
                0 <= i < positions@.len() ==> (#[trigger] positions@[i]) < commits@.len(),
            lanes@ == lanes_between(commits@, spine, k - 1),
            lanes@.len() == commits@.len(),
        decreases count - k,
    {
        let start = positions[k - 1];
        let end = positions[k];
        let lane = commits[start].primary_lane;
        let ghost before = lanes@;
        let mut row: usize = start;
        while row < end
            invariant
                start <= row,
                row <= end || row == start,
                end <= lanes@.len(),
                lanes@.len() == before.len(),
                forall|r: int|
                    0 <= r < before.len() ==> #[trigger] lanes@[r] == if start <= r < row {
                        Some(lane)
                    } else {
                        before[r]
                    },
            decreases end - row,
        {
            lanes.set(row, Some(lane));
            row = row + 1;
        }
        assert(spine[k - 1] == start && spine[k as int] == end);
        assert(lanes@ =~= lanes_between(commits@, spine, k as int));
        k = k + 1;
    }
    if count > 0 {
        let last = positions[count - 1];
        assert(spine.last() == last);
        lanes.set(last, Some(commits[last].primary_lane));
    } else {
        assert(lanes@ =~= lanes_between(commits@, spine, -1));
    }
    lanes
}

/// The spine is followed until a commit has no listed first parent, or until it has as many
/// commits as the list.
pub proof fn spine_ends_without_listed_parent(
    commits: Seq<CommitGraphNode>,
    oid: Oid,
    limit: nat,
)
    requires
        position_of(commits, oid) is Some,
        spine_from(commits, oid, limit).len() < limit,
    ensures
        spine_from(commits, oid, limit).len() > 0,
        ({
            let last = commits[spine_from(commits, oid, limit).last()];
            last.parent_oids@.len() == 0 || position_of(commits, last.parent_oids@[0]) is None
        }),
    decreases limit,
{
    let position = position_of(commits, oid)->0;
    let parents = commits[position].parent_oids@;
    if limit > 0 && parents.len() > 0 {
        let rest = spine_from(commits, parents[0], (limit - 1) as nat);
        if position_of(commits, parents[0]) is Some {
            spine_ends_without_listed_parent(commits, parents[0], (limit - 1) as nat);
            assert(spine_from(commits, oid, limit).last() == rest.last());
        } else {
            assert(spine_from(commits, oid, limit) =~= seq![position]);
        }
    }
}

/// Each commit of the spine is the first parent of the one before it.
pub proof fn spine_follows_first_parents(
    commits: Seq<CommitGraphNode>,
    oid: Oid,
    limit: nat,
    k: int,
)
    requires
        0 <= k < spine_from(commits, oid, limit).len(),
    ensures
        0 <= spine_from(commits, oid, limit)[k] < commits.len(),
        k == 0 ==> commits[spine_from(commits, oid, limit)[0]].oid == oid,
        k > 0 ==> {
            let parents = commits[spine_from(commits, oid, limit)[k - 1]].parent_oids@;
            parents.len() > 0 && parents[0] == commits[spine_from(commits, oid, limit)[k]].oid
        },
    decreases limit,
{
    lemma_commit_position(commits, oid, commits.len() as int);
    let position = position_of(commits, oid)->0;
    if k > 0 {
        let parent = commits[position].parent_oids@[0];
        let rest = spine_from(commits, parent, (limit - 1) as nat);
        spine_follows_first_parents(commits, parent, (limit - 1) as nat, k - 1);
        assert(spine_from(commits, oid, limit)[k] == rest[k - 1]);
        if k > 1 {
            assert(spine_from(commits, oid, limit)[k - 1] == rest[k - 2]);
        } else {
            spine_follows_first_parents(commits, parent, (limit - 1) as nat, 0);
        }
    }
}

/// A lane takes part in a row: a segment runs in it or leads to it.
pub open spec fn participates(segments: Seq<GraphLaneSegment>, lane: u16) -> bool {
    exists|i: int|
        0 <= i < segments.len() && ((#[trigger] segments[i]).lane == lane
            || segments[i].target_lane == Some(lane))
}

/// Lanes in strictly increasing order.
pub open spec fn lanes_ordered(lanes: Seq<u16>) -> bool {
    forall|i: int, j: int| 0 <= i < j < lanes.len() ==> lanes[i] < lanes[j]
}

/// Puts a lane into an ordered list of distinct lanes.
fn insert_lane(lanes: &mut Vec<u16>, lane: u16)
    requires
        lanes_ordered(old(lanes)@),
    ensures
        lanes_ordered(final(lanes)@),
        forall|other: u16| #[trigger]
            final(lanes)@.contains(other) == (old(lanes)@.contains(other) || other == lane),
{
    let mut at: usize = lanes.len();
    while at > 0 && lanes[at - 1] > lane
        invariant
            at <= lanes@.len(),
            forall|i: int| at <= i < lanes@.len() ==> lanes@[i] > lane,
        decreases at,
    {
        at = at - 1;
    }
    let ghost before = lanes@;
    if at > 0 && lanes[at - 1] == lane {
        assert(lanes@[at - 1] == lane);
        return ;
    }
    lanes.insert(at, lane);
    proof {
        assert(lanes@ == before.insert(at as int, lane));
        assert(lanes@[at as int] == lane);
        assert forall|i: int, j: int| 0 <= i < j < lanes@.len() implies lanes@[i] < lanes@[j] by {
            if j < at {
            } else if j == at {
                if i < at - 1 {
                    assert(before[i] < before[at - 1]);
                }
            } else if i == at {
                assert(before[j - 1] > lane);
            }
        }
        assert forall|other: u16| #[trigger] lanes@.contains(other) == (before.contains(other)
            || other == lane) by {
            if before.contains(other) {
                let k = choose|k: int| 0 <= k < before.len() && before[k] == other;
                if k < at {
                    assert(lanes@[k] == other);
                } else {
                    assert(lanes@[k + 1] == other);
                }
            }
            if lanes@.contains(other) && other != lane {
                let k = choose|k: int| 0 <= k < lanes@.len() && lanes@[k] == other;
                if k < at {
                    assert(before[k] == other);
                } else {
                    assert(before[k - 1] == other);
                }
            }
        }
    }
}

/// The lanes that take part in a row, in order.
pub fn graph_participating_lanes(commit: &CommitGraphNode) -> (lanes: Vec<u16>)
    ensures
        lanes_ordered(lanes@),
        forall|lane: u16| #[trigger] lanes@.contains(lane) == participates(commit.row_lanes@, lane),
{
    let segments = &commit.row_lanes;
    let mut lanes: Vec<u16> = Vec::new();
    let mut i: usize = 0;
    while i < segments.len()
        invariant
            i <= segments@.len(),
            lanes_ordered(lanes@),
            forall|lane: u16| #[trigger]
                lanes@.contains(lane) == participates(segments@.take(i as int), lane),
        decreases segments@.len() - i,
    {
        let segment = segments[i];
        let ghost before = lanes@;
        insert_lane(&mut lanes, segment.lane);
        if let Some(target) = segment.target_lane {
            insert_lane(&mut lanes, target);
        }
        proof {
            let shorter = segments@.take(i as int);
            let longer = segments@.take(i + 1);
            assert forall|lane: u16| #[trigger] lanes@.contains(lane) == participates(
                longer,
                lane,
            ) by {
                assert(before.contains(lane) == participates(shorter, lane));
                assert(longer[i as int] == segment);
                if participates(shorter, lane) {
                    let k = choose|k: int|
                        0 <= k < shorter.len() && ((#[trigger] shorter[k]).lane == lane
                            || shorter[k].target_lane == Some(lane));
                    assert(longer[k] == shorter[k]);
                }
                if participates(longer, lane) && !participates(shorter, lane) {
                    let k = choose|k: int|
                        0 <= k < longer.len() && ((#[trigger] longer[k]).lane == lane
                            || longer[k].target_lane == Some(lane));
                    if k < i {
                        assert(shorter[k] == longer[k]);
                    }
                }
            }
        }
        i = i + 1;
    }
    assert(segments@.take(i as int) =~= segments@);
    lanes
}

/// The lanes of a row that the graph column shows, in order.
pub fn select_visible_graph_lanes(commit: &CommitGraphNode) -> (lanes: Vec<u16>)
    ensures
        lanes_ordered(lanes@),
        forall|lane: u16| #[trigger]
            lanes@.contains(lane) == (participates(commit.row_lanes@, lane) && lane
                < MAX_VISIBLE_GRAPH_LANES),
{
    let ghost segments = commit.row_lanes;
    let all = graph_participating_lanes(commit);
    let mut lanes: Vec<u16> = Vec::new();
    let mut i: usize = 0;
    while i < all.len() && all[i] < MAX_VISIBLE_GRAPH_LANES
        invariant
            i <= all@.len(),
            lanes_ordered(all@),
            lanes@ == all@.take(i as int),
            forall|k: int| 0 <= k < i ==> all@[k] < MAX_VISIBLE_GRAPH_LANES,
        decreases all@.len() - i,
    {
        lanes.push(all[i]);
        i = i + 1;
        assert(lanes@ =~= all@.take(i as int));
    }
    proof {
        assert forall|lane: u16| #[trigger] lanes@.contains(lane) == (participates(segments@, lane)
            && lane < MAX_VISIBLE_GRAPH_LANES) by {
            assert(all@.contains(lane) == participates(segments@, lane));
            if lanes@.contains(lane) {
                let k = choose|k: int| 0 <= k < lanes@.len() && lanes@[k] == lane;
                assert(all@[k] == lane);
            }
            if all@.contains(lane) && lane < MAX_VISIBLE_GRAPH_LANES {
                let k = choose|k: int| 0 <= k < all@.len() && all@[k] == lane;
                if k >= i {
                    assert(all@[i as int] <= all@[k]);
                }
                assert(lanes@[k] == lane);
            }
        }
    }
    lanes
}

/// Whether a row has lanes that the graph column does not show.
pub fn graph_has_lane_overflow(commit: &CommitGraphNode) -> (overflow: bool)
    ensures
        overflow == exists|lane: u16|
            #[trigger] participates(commit.row_lanes@, lane) && lane >= MAX_VISIBLE_GRAPH_LANES,
{
    let ghost segments = commit.row_lanes;
    let all = graph_participating_lanes(commit);
    let len = all.len();
    let overflow = len > 0 && all[len - 1] >= MAX_VISIBLE_GRAPH_LANES;
    proof {
        if overflow {
            assert(all@.contains(all@[len - 1]));
            assert(participates(segments@, all@[len - 1]));
        } else {
            assert forall|lane: u16| #[trigger] participates(segments@, lane) implies lane
                < MAX_VISIBLE_GRAPH_LANES by {
                assert(all@.contains(lane));
                let k = choose|k: int| 0 <= k < all@.len() && all@[k] == lane;
                if k < len - 1 {
                    assert(all@[k] < all@[len - 1]);
                }
            }
        }
    }
    overflow
}

/// The colour of a lane.
#[derive(Clone, Copy, Debug, PartialEq, Eq, Structural)]
pub enum GraphLaneAccent {
    Active,
    Green,
    Amber,
    Fog,
    Slate,
}

/// The accent of a lane: the active one for the checked-out branch and for a detached head, or
/// else one of four in turn.
pub open spec fn lane_accent(
    lane: u16,
    active_lane: Option<u16>,
    detached_primary_lane: Option<u16>,
) -> GraphLaneAccent {
    if active_lane == Some(lane) || detached_primary_lane == Some(lane) {
        GraphLaneAccent::Active
    } else if lane % 4 == 0 {
        GraphLaneAccent::Green
    } else if lane % 4 == 1 {
        GraphLaneAccent::Amber
    } else if lane % 4 == 2 {
        GraphLaneAccent::Fog
    } else {
        GraphLaneAccent::Slate
    }
}

/// The accent of a lane.
pub fn graph_lane_accent(
    lane: u16,
    active_lane: Option<u16>,
    detached_primary_lane: Option<u16>,
) -> (accent: GraphLaneAccent)
    ensures
        accent == lane_accent(lane, active_lane, detached_primary_lane),
{
    let active = match active_lane {
        Some(active) => active == lane,
        None => false,
    };
    let detached = match detached_primary_lane {
        Some(detached) => detached == lane,
        None => false,
    };
    if active || detached {
        return GraphLaneAccent::Active;
    }
    let turn: u16 = lane % 4;
    if turn == 0 {
        GraphLaneAccent::Green
    } else if turn == 1 {
        GraphLaneAccent::Amber
    } else if turn == 2 {
        GraphLaneAccent::Fog
    } else {
        GraphLaneAccent::Slate
    }
}

/// How a commit row is set off.
#[derive(Clone, Copy, Debug, PartialEq, Eq, Structural)]
pub enum CommitRowHighlightState {
    Selected,
    CurrentTip,
    HoverOnly,
}

/// How a commit row is set off: a selection takes precedence over the checked-out tip.
pub fn commit_row_highlight_state(is_selected: bool, is_current_tip: bool) -> (state:
    CommitRowHighlightState)
    ensures
        state == if is_selected {
            CommitRowHighlightState::Selected
        } else if is_current_tip {
            CommitRowHighlightState::CurrentTip
        } else {
            CommitRowHighlightState::HoverOnly
        },
{
    if is_selected {
        CommitRowHighlightState::Selected
    } else if is_current_tip {
        CommitRowHighlightState::CurrentTip
    } else {
        CommitRowHighlightState::HoverOnly
    }
}

/// The commit's dot stands on a segment: it runs in the commit's lane and is no merge line.
pub open spec fn shows_node(primary_lane: u16, segment: GraphLaneSegment) -> bool {
    segment.kind != GraphLaneKind::MergeFromLeft && segment.kind != GraphLaneKind::MergeFromRight
        && segment.lane == primary_lane
}

/// Whether the commit's dot stands on a segment.
pub fn lane_shows_node(primary_lane: u16, segment: GraphLaneSegment) -> (shows: bool)
    ensures
        shows == shows_node(primary_lane, segment),
{
    segment.kind != GraphLaneKind::MergeFromLeft && segment.kind != GraphLaneKind::MergeFromRight
        && segment.lane == primary_lane
}

/// What the commit list shows of a commit besides its text.
#[derive(Debug)]
pub struct StyledCommitRow {
    pub commit_index: usize,
    pub active_lane: Option<u16>,
    pub is_checked_out_tip: bool,
    pub is_detached_head_tip: bool,
    pub visible_lane_ids: Vec<u16>,
    pub overflow_gutter_visible: bool,
}

/// The row shows the commit with the given index.
pub open spec fn row_shows(
    row: StyledCommitRow,
    commits: Seq<CommitGraphNode>,
    head: HeadState,
    index: int,
) -> bool {
    let commit = commits[index];
    &&& row.commit_index == index
    &&& row.active_lane == active_lanes(commits, head)[index]
    &&& row.is_checked_out_tip == (head matches HeadState::Branch { oid, .. } && oid == commit.oid)
    &&& row.is_detached_head_tip == (head matches HeadState::Detached { oid } && oid == commit.oid)
    &&& lanes_ordered(row.visible_lane_ids@)
    &&& forall|lane: u16| #[trigger]
        row.visible_lane_ids@.contains(lane) == (participates(commit.row_lanes@, lane) && lane
            < MAX_VISIBLE_GRAPH_LANES)
    &&& row.overflow_gutter_visible == exists|lane: u16|
        #[trigger] participates(commit.row_lanes@, lane) && lane >= MAX_VISIBLE_GRAPH_LANES
}

/// The rows of the commit list.
pub fn style_commit_rows(graph: &RepositoryGraphDocument) -> (rows: Vec<StyledCommitRow>)
    ensures
        rows@.len() == graph.commits@.len(),
        forall|i: int|
            0 <= i < rows@.len() ==> row_shows(#[trigger] rows@[i], graph.commits@, graph.head, i),
{
    let commits = &graph.commits;
    let head = &graph.head;
    let lanes = active_lane_by_row(commits, head);
    let mut rows: Vec<StyledCommitRow> = Vec::new();
    while rows.len() < commits.len()
        invariant
            rows@.len() <= commits@.len(),
            lanes@ == active_lanes(commits@, *head),
            lanes@.len() == commits@.len(),
            forall|i: int|
                0 <= i < rows@.len() ==> row_shows(#[trigger] rows@[i], commits@, *head, i),
        decreases commits@.len() - rows@.len(),
    {
        let index = rows.len();
        let commit = &commits[index];
        let is_checked_out_tip = match head {
            HeadState::Branch { oid, .. } => *oid == commit.oid,
            _ => false,
        };
        let is_detached_head_tip = match head {
            HeadState::Detached { oid } => *oid == commit.oid,
            _ => false,
        };
        let row = StyledCommitRow {
            commit_index: index,
            active_lane: lanes[index],
            is_checked_out_tip,
            is_detached_head_tip,
            visible_lane_ids: select_visible_graph_lanes(commit),
            overflow_gutter_visible: graph_has_lane_overflow(commit),
        };
        assert(row_shows(row, commits@, *head, index as int));
        rows.push(row);
    }
    rows
}

/// What is drawn in one lane of a row.
#[derive(Clone, Copy, Debug, PartialEq, Eq, Structural)]
pub struct LaneCell {
    pub accent: GraphLaneAccent,
    pub ends_here: bool,
    pub connector_target: Option<u16>,
    pub shows_node: bool,
}

/// The first segment that runs in a lane.
pub open spec fn segment_in(segments: Seq<GraphLaneSegment>, lane: u16) -> Option<GraphLaneSegment>
    decreases segments.len(),
{
    if segments.len() == 0 {
        None
    } else if segments[0].lane == lane {
        Some(segments[0])
    } else {
        segment_in(segments.drop_first(), lane)
    }
}

/// What is drawn for a segment: its line, up to the middle where the lane ends; a connector to
/// the lane that it leads to, if that lane is shown; and the commit's dot.
pub open spec fn lane_cell(
    segment: GraphLaneSegment,
    primary_lane: u16,
    active_lane: Option<u16>,
    is_detached_head_tip: bool,
) -> LaneCell {
    LaneCell {
        accent: lane_accent(
            segment.lane,
            active_lane,
            if is_detached_head_tip {
                Some(primary_lane)
            } else {
                None
            },
        ),
        ends_here: segment.kind == GraphLaneKind::End,
        connector_target: match segment.target_lane {
            Some(target) if target < MAX_VISIBLE_GRAPH_LANES => Some(target),
            _ => None,
        },
        shows_node: shows_node(primary_lane, segment),
    }
}

/// The number of lanes that a row draws: up to the last one shown.
pub open spec fn drawn_lane_count(visible: Seq<u16>) -> int {
    if visible.len() == 0 {
        0
    } else {
        visible.last() + 1
    }
}

fn find_segment(segments: &Vec<GraphLaneSegment>, lane: u16) -> (found: Option<GraphLaneSegment>)
    ensures
        found == segment_in(segments@, lane),
{
    let mut i: usize = 0;
    assert(segments@.skip(0) =~= segments@);
    while i < segments.len()
        invariant
            i <= segments@.len(),
            segment_in(segments@.skip(i as int), lane) == segment_in(segments@, lane),
        decreases segments@.len() - i,
    {
        assert(segments@.skip(i as int)[0] == segments@[i as int]);
        if segments[i].lane == lane {
            return Some(segments[i]);
        }
        assert(segments@.skip(i as int).drop_first() =~= segments@.skip(i + 1));
        i = i + 1;
    }
    None
}

/// The shown lanes of a row come in order, and none lies beyond those that can be shown.
pub open spec fn lanes_fit(row: StyledCommitRow) -> bool {
    &&& lanes_ordered(row.visible_lane_ids@)
    &&& forall|i: int|
        0 <= i < row.visible_lane_ids@.len() ==> row.visible_lane_ids@[i] < MAX_VISIBLE_GRAPH_LANES
}

/// The lanes of a row that shows a commit fit.
pub proof fn lemma_row_lanes_fit(
    row: StyledCommitRow,
    commits: Seq<CommitGraphNode>,
    head: HeadState,
    index: int,
)
    requires
        row_shows(row, commits, head, index),
    ensures
        lanes_fit(row),
{
    assert forall|i: int| 0 <= i < row.visible_lane_ids@.len() implies row.visible_lane_ids@[i]
        < MAX_VISIBLE_GRAPH_LANES by {
        assert(row.visible_lane_ids@.contains(row.visible_lane_ids@[i]));
    }
}

/// The cells are what is drawn in the lanes of a row, from the left. Lanes that no segment runs in
/// stay empty.
pub open spec fn draws_lanes(
    cells: Seq<Option<LaneCell>>,
    row: StyledCommitRow,
    commit: CommitGraphNode,
) -> bool {
    &&& cells.len() == drawn_lane_count(row.visible_lane_ids@)
    &&& forall|lane: u16|
        lane < cells.len() ==> #[trigger] cells[lane as int] == match segment_in(
            commit.row_lanes@,
            lane,
        ) {
            Some(segment) => Some(
                lane_cell(
                    segment,
                    commit.primary_lane,
                    row.active_lane,
                    row.is_detached_head_tip,
                ),
            ),
            None => None,
        }
}

/// What is drawn in each lane of a row, from the left.
pub fn render_graph_lanes(row: &StyledCommitRow, commit: &CommitGraphNode) -> (cells: Vec<
    Option<LaneCell>,
>)
    requires
        lanes_fit(*row),
    ensures
        draws_lanes(cells@, *row, *commit),
{
    let mut cells: Vec<Option<LaneCell>> = Vec::new();
    let visible = row.visible_lane_ids.len();
    let count: u16 = if visible == 0 {
        0
    } else {
        row.visible_lane_ids[visible - 1] + 1
    };
    let mut lane: u16 = 0;
    while lane < count
        invariant
            lane <= count,
            cells@.len() == lane,
            forall|l: u16|
                l < lane ==> #[trigger] cells@[l as int] == match segment_in(
                    commit.row_lanes@,
                    l,
                ) {
                    Some(segment) => Some(
                        lane_cell(
                            segment,
                            commit.primary_lane,
                            row.active_lane,
                            row.is_detached_head_tip,
                        ),
                    ),
                    None => None,
                },
        decreases count - lane,
    {
        let cell = match find_segment(&commit.row_lanes, lane) {
            Some(segment) => {
                let detached: Option<u16> = if row.is_detached_head_tip {
                    Some(commit.primary_lane)
                } else {
                    None
                };
                let connector_target = match segment.target_lane {
                    Some(target) if target < MAX_VISIBLE_GRAPH_LANES => Some(target),
                    _ => None,
                };
                Some(
                    LaneCell {
                        accent: graph_lane_accent(segment.lane, row.active_lane, detached),
                        ends_here: segment.kind == GraphLaneKind::End,
                        connector_target,
                        shows_node: lane_shows_node(commit.primary_lane, segment),
                    },
                )
            },
            None => None,
        };
        cells.push(cell);
        lane = lane + 1;
    }
    cells
}

/// The first segment in a lane is one of the segments, runs in the lane, and none before it does.
pub proof fn first_segment_of_a_lane(segments: Seq<GraphLaneSegment>, lane: u16)
    ensures
        match segment_in(segments, lane) {
            Some(segment) => exists|k: int|
                0 <= k < segments.len() && #[trigger] segments[k] == segment && segment.lane == lane
                    && forall|j: int| 0 <= j < k ==> (#[trigger] segments[j]).lane != lane,
            None => forall|k: int| 0 <= k < segments.len() ==> (#[trigger] segments[k]).lane != lane,
        },
    decreases segments.len(),
{
    if segments.len() > 0 && segments[0].lane != lane {
        let rest = segments.drop_first();
        first_segment_of_a_lane(rest, lane);
        match segment_in(rest, lane) {
            Some(segment) => {
                let k = choose|k: int|
                    0 <= k < rest.len() && #[trigger] rest[k] == segment && segment.lane == lane
                        && forall|j: int| 0 <= j < k ==> (#[trigger] rest[j]).lane != lane;
                assert(segments[k + 1] == segment);
                assert forall|j: int| 0 <= j < k + 1 implies (#[trigger] segments[j]).lane != lane by {
                    if j > 0 {
                        assert(rest[j - 1] == segments[j]);
                    }
                }
            },
            None => {
                assert forall|k: int| 0 <= k < segments.len() implies (
                #[trigger] segments[k]).lane != lane by {
                    if k > 0 {
                        assert(rest[k - 1] == segments[k]);
                    }
                }
            },
        }
    }
}

/// What is drawn in a lane follows from the commit's segments: a lane is drawn where a segment runs
/// in it, its line stops in the middle of the row exactly where the first such segment ends there,
/// so that the lines of all others reach the next row, a connector leads to the segment's target
/// where that is one of the lanes that can be shown, and the commit's dot stands in the commit's own
/// lane, unless a merge line runs there.
pub proof fn cells_follow_the_segments(
    cells: Seq<Option<LaneCell>>,
    row: StyledCommitRow,
    commit: CommitGraphNode,
    lane: u16,
    k: int,
)
    requires
        draws_lanes(cells, row, commit),
        lane < cells.len(),
        0 <= k < commit.row_lanes@.len(),
        commit.row_lanes@[k].lane == lane,
        forall|j: int| 0 <= j < k ==> (#[trigger] commit.row_lanes@[j]).lane != lane,
    ensures
        cells[lane as int] is Some,
        cells[lane as int]->0.ends_here == (commit.row_lanes@[k].kind is End),
        (commit.row_lanes@[k].kind is Through || commit.row_lanes@[k].kind is MergeFromLeft
            || commit.row_lanes@[k].kind is MergeFromRight) ==> !cells[lane as int]->0.ends_here,
        cells[lane as int]->0.connector_target is Some == (commit.row_lanes@[k].target_lane is Some
            && commit.row_lanes@[k].target_lane->0 < 6),
        cells[lane as int]->0.connector_target is Some ==> cells[lane as int]->0.connector_target
            == commit.row_lanes@[k].target_lane,
        cells[lane as int]->0.shows_node == (commit.primary_lane == lane && (
        commit.row_lanes@[k].kind is Through || commit.row_lanes@[k].kind is End)),
        cells[lane as int]->0.accent is Active == (row.active_lane == Some(lane) || (
        row.is_detached_head_tip && commit.primary_lane == lane)),
{
    first_segment_of_a_lane(commit.row_lanes@, lane);
    let found = choose|i: int|
        0 <= i < commit.row_lanes@.len() && #[trigger] commit.row_lanes@[i] == segment_in(
            commit.row_lanes@,
            lane,
        )->0 && commit.row_lanes@[i].lane == lane && forall|j: int|
            0 <= j < i ==> (#[trigger] commit.row_lanes@[j]).lane != lane;
    assert(commit.row_lanes@[k].lane == lane);
    assert(found == k);
    assert(cells[lane as int] is Some);
}

/// A lane that no segment runs in stays empty.
pub proof fn lanes_without_segments_stay_empty(
    cells: Seq<Option<LaneCell>>,
    row: StyledCommitRow,
    commit: CommitGraphNode,
    lane: u16,
)
    requires
        draws_lanes(cells, row, commit),
        lane < cells.len(),
        forall|j: int|
            0 <= j < commit.row_lanes@.len() ==> (#[trigger] commit.row_lanes@[j]).lane != lane,
    ensures
        cells[lane as int] is None,
{
    first_segment_of_a_lane(commit.row_lanes@, lane);
    assert(cells[lane as int] is None);
}

/// The row of a commit draws every lane up to the last shown one that takes part in it, and where
/// lanes beyond those that can be shown take part, it says so.
pub proof fn all_shown_lanes_are_drawn(
    cells: Seq<Option<LaneCell>>,
    row: StyledCommitRow,
    commits: Seq<CommitGraphNode>,
    head: HeadState,
    index: int,
    k: int,
)
    requires
        row_shows(row, commits, head, index),
        draws_lanes(cells, row, commits[index]),
        0 <= k < commits[index].row_lanes@.len(),
    ensures
        cells.len() <= 6,
        commits[index].row_lanes@[k].lane < 6 ==> commits[index].row_lanes@[k].lane < cells.len(),
        commits[index].row_lanes@[k].target_lane matches Some(target) ==> target < 6 ==> target
            < cells.len(),
        commits[index].row_lanes@[k].lane >= 6 ==> row.overflow_gutter_visible,
        cells.len() > 0 ==> exists|j: int|
            0 <= j < commits[index].row_lanes@.len() && ((
            #[trigger] commits[index].row_lanes@[j]).lane == cells.len() - 1
                || commits[index].row_lanes@[j].target_lane == Some((cells.len() - 1) as u16)),
{
    let segments = commits[index].row_lanes@;
    let visible = row.visible_lane_ids@;
    lemma_row_lanes_fit(row, commits, head, index);
    assert(participates(segments, segments[k].lane));
    if visible.len() > 0 {
        assert(visible.contains(visible[visible.len() - 1]));
        assert(participates(segments, visible.last()));
    }
    if segments[k].lane < 6 {
        assert(visible.contains(segments[k].lane));
        let i = choose|i: int| 0 <= i < visible.len() && visible[i] == segments[k].lane;
        if i < visible.len() - 1 {
            assert(visible[i] < visible[visible.len() - 1]);
        }
    }
    if segments[k].target_lane is Some && segments[k].target_lane->0 < 6 {
        let target = segments[k].target_lane->0;
        assert(participates(segments, target));
        assert(visible.contains(target));
        let i = choose|i: int| 0 <= i < visible.len() && visible[i] == target;
        if i < visible.len() - 1 {
            assert(visible[i] < visible[visible.len() - 1]);
        }
    }
}

/// Lanes that are not the active one take their colours in turn: four lanes on, the colour is the
/// same, and it differs from those of the three lanes between.
pub proof fn lane_colours_repeat_every_four_lanes(a: u16, b: u16)
    ensures
        !(lane_accent(a, None, None) is Active),
        (lane_accent(a, None, None) == lane_accent(b, None, None)) == ((a - b) % 4 == 0),
        lane_accent(0, None, None) is Green,
        lane_accent(1, None, None) is Amber,
        lane_accent(2, None, None) is Fog,
        lane_accent(3, None, None) is Slate,
{
}

/// The rows of a list of commits come in order along the spine.
pub open spec fn spine_descends(spine: Seq<int>) -> bool {
    forall|i: int, j: int| 0 <= i < j < spine.len() ==> spine[i] < spine[j]
}

proof fn lemma_lane_in_stretch(
    commits: Seq<CommitGraphNode>,
    spine: Seq<int>,
    count: int,
    row: int,
    k: int,
)
    requires
        0 <= k < count < spine.len(),
        0 <= row < commits.len(),
        spine_descends(spine),
        spine[k] <= row < spine[k + 1],
    ensures
        lanes_between(commits, spine, count).len() == commits.len(),
        lanes_between(commits, spine, count)[row] == Some(commits[spine[k]].primary_lane),
    decreases count,
{
    if k < count - 1 {
        lemma_lane_in_stretch(commits, spine, count - 1, row, k);
        if k + 1 < count - 1 {
            assert(spine[k + 1] < spine[count - 1]);
        }
    }
}

proof fn lemma_lane_outside(commits: Seq<CommitGraphNode>, spine: Seq<int>, count: int, row: int)
    requires
        count < spine.len(),
        0 <= row < commits.len(),
        spine_descends(spine),
        count > 0 ==> row < spine[0] || spine[count] <= row,
    ensures
        lanes_between(commits, spine, count).len() == commits.len(),
        lanes_between(commits, spine, count)[row] is None,
    decreases count,
{
    if count > 0 {
        assert(spine[count - 1] < spine[count]);
        if count > 1 {
            assert(spine[0] < spine[count - 1]);
        }
        lemma_lane_outside(commits, spine, count - 1, row);
    }
}

/// Where the history is listed with each commit above its first parent, the lane of the checked-out
/// branch is in the row of a commit of the branch, and in the rows down to its first parent, the
/// lane of that commit.
pub proof fn active_lane_is_that_of_the_branch(
    commits: Seq<CommitGraphNode>,
    head: HeadState,
    row: int,
    k: int,
)
    requires
        0 <= row < commits.len(),
        spine_descends(head_spine(commits, head)),
        0 <= k < head_spine(commits, head).len(),
        row == head_spine(commits, head)[k] || (k + 1 < head_spine(commits, head).len()
            && head_spine(commits, head)[k] <= row < head_spine(commits, head)[k + 1]),
    ensures
        active_lanes(commits, head)[row] == Some(
            commits[head_spine(commits, head)[k]].primary_lane,
        ),
{
    let spine = head_spine(commits, head);
    let last = spine.len() - 1;
    spine_follows_first_parents(commits, head->Branch_oid, commits.len(), last);
    if k < last {
        assert(spine[k] < spine[k + 1]);
        if k + 1 < last {
            assert(spine[k + 1] < spine[last]);
        }
        lemma_lane_in_stretch(commits, spine, last, row, k);
    } else {
        lemma_lane_outside(commits, spine, last, row);
    }
}

/// In the rows above and below the checked-out branch there is no active lane.
pub proof fn no_active_lane_outside_the_branch(
    commits: Seq<CommitGraphNode>,
    head: HeadState,
    row: int,
)
    requires
        0 <= row < commits.len(),
        spine_descends(head_spine(commits, head)),
        head_spine(commits, head).len() > 0 ==> row < head_spine(commits, head)[0] || head_spine(
            commits,
            head,
        ).last() < row,
    ensures
        active_lanes(commits, head)[row] is None,
{
    let spine = head_spine(commits, head);
    if spine.len() > 0 {
        lemma_lane_outside(commits, spine, spine.len() - 1, row);
        spine_follows_first_parents(commits, head->Branch_oid, commits.len(), spine.len() - 1);
    } else {
        lemma_lane_outside(commits, spine, -1, row);
    }
}

/// The number that hexadecimal digits stand for, the last one for the ones.
pub open spec fn hex_number_of(digits: Seq<char>) -> int
    decreases digits.len(),
{
    if digits.len() == 0 {
        0
    } else {
        let digit = digits.last();
        16 * hex_number_of(digits.drop_last()) + if '0' <= digit <= '9' {
            digit as int - '0' as int
        } else {
            digit as int - 'a' as int + 10
        }
    }
}

/// The greatest number with so many hexadecimal digits, plus one.
pub open spec fn hex_limit(count: nat) -> int
    decreases count,
{
    if count == 0 {
        1
    } else {
        16 * hex_limit((count - 1) as nat)
    }
}

/// Hexadecimal digits stand for the number that they were made of, where they are enough of them.
pub proof fn hex_digits_read_back(n: nat, count: nat)
    requires
        n < hex_limit(count),
    ensures
        hex_digits(n, count).len() == count,
        hex_number_of(hex_digits(n, count)) == n,
        forall|i: int|
            0 <= i < count ==> '0' <= #[trigger] hex_digits(n, count)[i] <= '9' || 'a'
                <= hex_digits(n, count)[i] <= 'f',
    decreases count,
{
    if count > 0 {
        hex_digits_read_back(n / 16, (count - 1) as nat);
        assert(hex_digits(n, count).drop_last() =~= hex_digits(n / 16, (count - 1) as nat));
    }
}

/// The lanes that are shown are those of the row that have a column; the row overflows exactly where a
/// lane of it is not shown. Each lane is listed once, in order.
pub proof fn hidden_lanes_overflow(
    commit: &CommitGraphNode,
    all: Vec<u16>,
    shown: Vec<u16>,
    overflow: bool,
    lane: u16,
)
    requires
        call_ensures(graph_participating_lanes, (commit,), all),
        call_ensures(select_visible_graph_lanes, (commit,), shown),
        call_ensures(graph_has_lane_overflow, (commit,), overflow),
    ensures
        shown@.contains(lane) ==> all@.contains(lane) && lane < 6,
        all@.contains(lane) && lane < 6 ==> shown@.contains(lane),
        all@.contains(lane) && !shown@.contains(lane) ==> overflow,
        overflow ==> exists|i: int| 0 <= i < all@.len() && (#[trigger] all@[i]) >= 6,
        forall|i: int, j: int| 0 <= i < j < all@.len() ==> all@[i] < all@[j],
        forall|i: int, j: int| 0 <= i < j < shown@.len() ==> shown@[i] < shown@[j],
{
    if overflow {
        let hidden = choose|hidden: u16|
            #[trigger] participates(commit.row_lanes@, hidden) && hidden >= MAX_VISIBLE_GRAPH_LANES;
        assert(all@.contains(hidden));
        let i = choose|i: int| 0 <= i < all@.len() && all@[i] == hidden;
        assert(all@[i] >= 6);
    }
}

/// What is drawn in a lane comes from the first segment of the row in that lane, and a lane without a
/// segment stays empty.
pub proof fn drawn_lanes_are_those_of_the_commit(
    row: &StyledCommitRow,
    commit: &CommitGraphNode,
    cells: Vec<Option<LaneCell>>,
    lane: u16,
    k: int,
)
    requires
        call_ensures(render_graph_lanes, (row, commit), cells),
        lane < cells@.len(),
        0 <= k <= commit.row_lanes@.len(),
        forall|j: int| 0 <= j < k ==> (#[trigger] commit.row_lanes@[j]).lane != lane,
        k < commit.row_lanes@.len() ==> commit.row_lanes@[k].lane == lane,
    ensures
        cells@[lane as int] is Some == (k < commit.row_lanes@.len()),
        k < commit.row_lanes@.len() ==> {
            let cell = cells@[lane as int]->0;
            let segment = commit.row_lanes@[k];
            &&& cell.ends_here == (segment.kind is End)
            &&& cell.connector_target is Some ==> cell.connector_target == segment.target_lane
            &&& segment.target_lane is Some && segment.target_lane->0 < 6
                ==> cell.connector_target is Some
            &&& cell.shows_node ==> commit.primary_lane == lane
            &&& commit.primary_lane == lane && (segment.kind is Through || segment.kind is End)
                ==> cell.shows_node
        },
{
    if k < commit.row_lanes@.len() {
        cells_follow_the_segments(cells@, *row, *commit, lane, k);
    } else {
        lanes_without_segments_stay_empty(cells@, *row, *commit, lane);
    }
}

/// A lane has the same colour in every row where it is not the active one, and lanes next to each
/// other differ in it.
pub proof fn lane_keeps_its_colour_down_the_rows(
    row: &StyledCommitRow,
    commit: &CommitGraphNode,
    cells: Vec<Option<LaneCell>>,
    other_row: &StyledCommitRow,
    other_commit: &CommitGraphNode,
    other_cells: Vec<Option<LaneCell>>,
    lane: u16,
    other_lane: u16,
)
    requires
        call_ensures(render_graph_lanes, (row, commit), cells),
        call_ensures(render_graph_lanes, (other_row, other_commit), other_cells),
        lane < cells@.len(),
        other_lane < other_cells@.len(),
        cells@[lane as int] is Some,
        other_cells@[other_lane as int] is Some,
        !(cells@[lane as int]->0.accent is Active),
        !(other_cells@[other_lane as int]->0.accent is Active),
    ensures
        (cells@[lane as int]->0.accent == other_cells@[other_lane as int]->0.accent) == (lane % 4
            == other_lane % 4),
{
    first_segment_of_a_lane(commit.row_lanes@, lane);
    first_segment_of_a_lane(other_commit.row_lanes@, other_lane);
}

} // verus!
