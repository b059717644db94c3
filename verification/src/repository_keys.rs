//! Keys that tell when the rows of a repository browser are out of date.

use crate::repository_graph::{
    BranchTrackingInfo, CommitGraphNode, CommitRefKind, CommitRefLabel, GraphLaneKind,
    GraphLaneSegment, HeadState, LocalBranchEntry, Oid, RemoteBranchEntry, RepositoryGraphDocument,
};
use crate::strings;
use crate::text;
use crate::tree;
use std::collections::hash_map::DefaultHasher;
use std::hash::Hasher;
use vstd::bytes::{u128_to_le_bytes, u16_to_le_bytes, u32_to_le_bytes, u64_to_le_bytes};
use vstd::prelude::*;
use vstd::std_specs::hash::*;
use vstd::string::*;

verus! {

/// What is hashed of a text: its bytes, and a byte that no text holds.
pub open spec fn text_parts(chars: Seq<char>) -> Seq<Seq<u8>> {
    seq![text::bytes_of(chars), seq![0xFFu8]]
}

/// What is hashed of a number.
pub open spec fn number_parts(n: u64) -> Seq<Seq<u8>> {
    seq![vstd::bytes::spec_u64_to_le_bytes(n)]
}

/// What is hashed of a lane.
pub open spec fn lane_parts(lane: u16) -> Seq<Seq<u8>> {
    seq![vstd::bytes::spec_u16_to_le_bytes(lane)]
}

/// What is hashed of a small number.
pub open spec fn byte_parts(n: u8) -> Seq<Seq<u8>> {
    seq![seq![n]]
}

/// What is hashed of an object name.
pub open spec fn oid_parts(oid: Oid) -> Seq<Seq<u8>> {
    seq![
        vstd::bytes::spec_u32_to_le_bytes(oid.high),
        vstd::bytes::spec_u128_to_le_bytes(oid.low),
    ]
}

fn hash_text(hasher: &mut DefaultHasher, value: &str)
    ensures
        final(hasher)@ == old(hasher)@ + text_parts(value@),
{
    let ghost before = hasher@;
    let end: Vec<u8> = vec![0xFFu8];
    hasher.write(value.as_bytes());
    hasher.write(end.as_slice());
    assert(end@ =~= seq![0xFFu8]);
    assert(hasher@ =~= before + text_parts(value@));
}

fn hash_number(hasher: &mut DefaultHasher, value: u64)
    ensures
        final(hasher)@ == old(hasher)@ + number_parts(value),
{
    let ghost before = hasher@;
    let bytes = u64_to_le_bytes(value);
    hasher.write(bytes.as_slice());
    assert(hasher@ =~= before + number_parts(value));
}

fn hash_lane(hasher: &mut DefaultHasher, value: u16)
    ensures
        final(hasher)@ == old(hasher)@ + lane_parts(value),
{
    let ghost before = hasher@;
    let bytes = u16_to_le_bytes(value);
    hasher.write(bytes.as_slice());
    assert(hasher@ =~= before + lane_parts(value));
}

fn hash_byte(hasher: &mut DefaultHasher, value: u8)
    ensures
        final(hasher)@ == old(hasher)@ + byte_parts(value),
{
    let ghost before = hasher@;
    let bytes: Vec<u8> = vec![value];
    hasher.write(bytes.as_slice());
    assert(bytes@ =~= seq![value]);
    assert(hasher@ =~= before + byte_parts(value));
}

fn hash_oid(hasher: &mut DefaultHasher, oid: Oid)
    ensures
        final(hasher)@ == old(hasher)@ + oid_parts(oid),
{
    let ghost before = hasher@;
    let high = u32_to_le_bytes(oid.high);
    let low = u128_to_le_bytes(oid.low);
    hasher.write(high.as_slice());
    hasher.write(low.as_slice());
    assert(hasher@ =~= before + oid_parts(oid));
}

/// What is hashed of a truth value.
pub open spec fn flag_parts(flag: bool) -> Seq<Seq<u8>> {
    byte_parts(
        if flag {
            1
        } else {
            0
        },
    )
}

/// What is hashed of a tracked branch.
pub open spec fn upstream_parts(upstream: Option<BranchTrackingInfo>) -> Seq<Seq<u8>> {
    match upstream {
        Some(upstream) => text_parts(upstream.remote_name@) + text_parts(upstream.remote_ref@)
            + number_parts(upstream.ahead as u64) + number_parts(upstream.behind as u64),
        None => Seq::empty(),
    }
}

/// What is hashed of a local branch.
pub open spec fn local_branch_parts(branch: LocalBranchEntry) -> Seq<Seq<u8>> {
    text_parts(branch.name@) + text_parts(branch.full_ref@) + oid_parts(branch.target)
        + flag_parts(branch.is_head) + upstream_parts(branch.upstream)
}

/// What is hashed of a branch of a remote.
pub open spec fn remote_branch_parts(branch: RemoteBranchEntry) -> Seq<Seq<u8>> {
    text_parts(branch.remote_name@) + text_parts(branch.short_name@) + text_parts(branch.full_ref@)
        + oid_parts(branch.target) + match branch.tracked_by_local {
        Some(local) => byte_parts(1) + text_parts(local@),
        None => byte_parts(0),
    }
}

/// What is hashed of the first local branches.
pub open spec fn local_branches_parts(branches: Seq<LocalBranchEntry>, count: int) -> Seq<Seq<u8>>
    decreases count,
{
    if count <= 0 {
        Seq::empty()
    } else {
        local_branches_parts(branches, count - 1) + local_branch_parts(branches[count - 1])
    }
}

/// What is hashed of the first branches of remotes.
pub open spec fn remote_branches_parts(branches: Seq<RemoteBranchEntry>, count: int) -> Seq<
    Seq<u8>,
>
    decreases count,
{
    if count <= 0 {
        Seq::empty()
    } else {
        remote_branches_parts(branches, count - 1) + remote_branch_parts(branches[count - 1])
    }
}

fn hash_local_branch(hasher: &mut DefaultHasher, branch: &LocalBranchEntry)
    ensures
        final(hasher)@ == old(hasher)@ + local_branch_parts(*branch),
{
    let ghost before = hasher@;
    hash_text(hasher, branch.name.as_str());
    hash_text(hasher, branch.full_ref.as_str());
    hash_oid(hasher, branch.target);
    hash_byte(
        hasher,
        if branch.is_head {
            1
        } else {
            0
        },
    );
    if let Some(upstream) = &branch.upstream {
        hash_text(hasher, upstream.remote_name.as_str());
        hash_text(hasher, upstream.remote_ref.as_str());
        hash_number(hasher, upstream.ahead as u64);
        hash_number(hasher, upstream.behind as u64);
    }
    assert(hasher@ =~= before + local_branch_parts(*branch));
}

fn hash_remote_branch(hasher: &mut DefaultHasher, branch: &RemoteBranchEntry)
    ensures
        final(hasher)@ == old(hasher)@ + remote_branch_parts(*branch),
{
    let ghost before = hasher@;
    hash_text(hasher, branch.remote_name.as_str());
    hash_text(hasher, branch.short_name.as_str());
    hash_text(hasher, branch.full_ref.as_str());
    hash_oid(hasher, branch.target);
    match &branch.tracked_by_local {
        Some(local) => {
            hash_byte(hasher, 1);
            hash_text(hasher, local.as_str());
        },
        None => {
            hash_byte(hasher, 0);
        },
    }
    assert(hasher@ =~= before + remote_branch_parts(*branch));
}

/// The names in order, each of them once.
pub open spec fn ordered_names(names: Seq<Seq<char>>) -> Seq<Seq<char>>
    decreases names.len(),
{
    if names.len() == 0 {
        Seq::empty()
    } else {
        tree::insert_name(ordered_names(names.drop_last()), names.last())
    }
}

/// What is hashed of the first names of a list.
pub open spec fn name_parts(names: Seq<Seq<char>>, count: int) -> Seq<Seq<u8>>
    decreases count,
{
    if count <= 0 {
        Seq::empty()
    } else {
        name_parts(names, count - 1) + text_parts(names[count - 1])
    }
}

/// The hash of a set of names: it does not depend on the order in which they are listed.
pub open spec fn names_hash(names: Seq<Seq<char>>) -> u64 {
    let ordered = ordered_names(names);
    DefaultHasher::spec_finish(name_parts(ordered, ordered.len() as int))
}

/// The hash of a set of names.
pub fn hash_names(names: &Vec<String>) -> (hash: u64)
    ensures
        hash == names_hash(strings::views(names@)),
{
    let mut ordered: Vec<String> = Vec::new();
    let mut i: usize = 0;
    let ghost all = strings::views(names@);
    proof {
        assert(all.take(0) =~= Seq::<Seq<char>>::empty());
        assert(strings::views(ordered@) =~= Seq::<Seq<char>>::empty());
    }
    while i < names.len()
        invariant
            i <= names@.len(),
            all == strings::views(names@),
            strings::views(ordered@) == ordered_names(all.take(i as int)),
        decreases names@.len() - i,
    {
        tree::insert_name_in_order(&mut ordered, &names[i]);
        assert(all.take(i + 1).drop_last() =~= all.take(i as int));
        i = i + 1;
    }
    assert(all.take(i as int) =~= all);
    let mut hasher = DefaultHasher::new();
    let mut k: usize = 0;
    assert(hasher@ =~= name_parts(strings::views(ordered@), 0));
    while k < ordered.len()
        invariant
            k <= ordered@.len(),
            hasher@ == name_parts(strings::views(ordered@), k as int),
        decreases ordered@.len() - k,
    {
        hash_text(&mut hasher, ordered[k].as_str());
        k = k + 1;
    }
    hasher.finish()
}

/// Tells whether the rows of branches are out of date: it changes with the branches, with the
/// worktrees that occupy them, with the expanded remotes and with the width of the pane.
#[derive(Clone, Copy, Debug, PartialEq, Eq, Structural)]
pub struct BranchRailCacheKey {
    pub content_hash: u64,
    pub occupancy_count: usize,
    pub occupancy_hash: u64,
    pub expanded_remote_count: usize,
    pub expanded_remote_hash: u64,
    pub layout_width_bucket: u16,
}

/// What is hashed of the branches of a repository.
pub open spec fn branch_parts(graph: RepositoryGraphDocument) -> Seq<Seq<u8>> {
    local_branches_parts(graph.local_branches@, graph.local_branches@.len() as int)
        + remote_branches_parts(graph.remote_branches@, graph.remote_branches@.len() as int)
}

/// The key of the rows of branches.
pub open spec fn branch_rail_key(
    graph: RepositoryGraphDocument,
    occupied: Seq<String>,
    expanded: Seq<String>,
    width: u16,
) -> BranchRailCacheKey {
    BranchRailCacheKey {
        content_hash: DefaultHasher::spec_finish(branch_parts(graph)),
        occupancy_count: occupied.len() as usize,
        occupancy_hash: names_hash(strings::views(occupied)),
        expanded_remote_count: expanded.len() as usize,
        expanded_remote_hash: names_hash(strings::views(expanded)),
        layout_width_bucket: width,
    }
}

/// The key of the rows of branches, with the width of the pane in whole pixels.
pub fn branch_rail_cache_key(
    graph: &RepositoryGraphDocument,
    occupied_local_branches: &Vec<String>,
    expanded_remote_groups: &Vec<String>,
    layout_width_bucket: u16,
) -> (key: BranchRailCacheKey)
    ensures
        key == branch_rail_key(
            *graph,
            occupied_local_branches@,
            expanded_remote_groups@,
            layout_width_bucket,
        ),
{
    let mut hasher = DefaultHasher::new();
    let mut i: usize = 0;
    assert(hasher@ =~= local_branches_parts(graph.local_branches@, 0));
    while i < graph.local_branches.len()
        invariant
            i <= graph.local_branches@.len(),
            hasher@ == local_branches_parts(graph.local_branches@, i as int),
        decreases graph.local_branches@.len() - i,
    {
        hash_local_branch(&mut hasher, &graph.local_branches[i]);
        i = i + 1;
    }
    let ghost local = hasher@;
    let mut k: usize = 0;
    assert(hasher@ =~= local + remote_branches_parts(graph.remote_branches@, 0));
    while k < graph.remote_branches.len()
        invariant
            k <= graph.remote_branches@.len(),
            hasher@ == local + remote_branches_parts(graph.remote_branches@, k as int),
        decreases graph.remote_branches@.len() - k,
    {
        hash_remote_branch(&mut hasher, &graph.remote_branches[k]);
        k = k + 1;
        assert(hasher@ =~= local + remote_branches_parts(graph.remote_branches@, k as int));
    }
    BranchRailCacheKey {
        content_hash: hasher.finish(),
        occupancy_count: occupied_local_branches.len(),
        occupancy_hash: hash_names(occupied_local_branches),
        expanded_remote_count: expanded_remote_groups.len(),
        expanded_remote_hash: hash_names(expanded_remote_groups),
        layout_width_bucket,
    }
}

/// Tells whether the rows of commits are out of date.
#[derive(Clone, Copy, Debug, PartialEq, Eq, Structural)]
pub struct CommitRowsCacheKey {
    pub content_hash: u64,
}

/// What is hashed of what is checked out.
pub open spec fn head_parts(head: HeadState) -> Seq<Seq<u8>> {
    match head {
        HeadState::Branch { name, oid } => text_parts("branch"@) + text_parts(name@) + oid_parts(
            oid,
        ),
        HeadState::Detached { oid } => text_parts("detached"@) + oid_parts(oid),
        HeadState::Unborn => text_parts("unborn"@),
    }
}

/// What is hashed of how a lane passes.
pub open spec fn lane_kind_parts(kind: GraphLaneKind) -> Seq<Seq<u8>> {
    byte_parts(
        match kind {
            GraphLaneKind::Through => 0,
            GraphLaneKind::End => 1,
            GraphLaneKind::MergeFromLeft => 2,
            GraphLaneKind::MergeFromRight => 3,
        },
    )
}

/// What is hashed of a lane in a row.
pub open spec fn segment_parts(segment: GraphLaneSegment) -> Seq<Seq<u8>> {
    lane_parts(segment.lane) + lane_kind_parts(segment.kind) + match segment.target_lane {
        Some(lane) => byte_parts(1) + lane_parts(lane),
        None => byte_parts(0),
    }
}

/// What is hashed of a label.
pub open spec fn label_parts(label: CommitRefLabel) -> Seq<Seq<u8>> {
    text_parts(label.name@) + byte_parts(
        match label.kind {
            CommitRefKind::Head => 0,
            CommitRefKind::LocalBranch => 1,
            CommitRefKind::RemoteBranch => 2,
        },
    )
}

/// What is hashed of the first lanes of a row.
pub open spec fn segments_parts(segments: Seq<GraphLaneSegment>, count: int) -> Seq<Seq<u8>>
    decreases count,
{
    if count <= 0 {
        Seq::empty()
    } else {
        segments_parts(segments, count - 1) + segment_parts(segments[count - 1])
    }
}

/// What is hashed of the first labels of a commit.
pub open spec fn labels_parts(labels: Seq<CommitRefLabel>, count: int) -> Seq<Seq<u8>>
    decreases count,
{
    if count <= 0 {
        Seq::empty()
    } else {
        labels_parts(labels, count - 1) + label_parts(labels[count - 1])
    }
}

/// What is hashed of the first parents of a commit.
pub open spec fn oids_parts(oids: Seq<Oid>, count: int) -> Seq<Seq<u8>>
    decreases count,
{
    if count <= 0 {
        Seq::empty()
    } else {
        oids_parts(oids, count - 1) + oid_parts(oids[count - 1])
    }
}

/// What is hashed of a commit.
pub open spec fn commit_parts(commit: CommitGraphNode) -> Seq<Seq<u8>> {
    oid_parts(commit.oid) + text_parts(commit.summary@) + number_parts(
        commit.authored_at_unix as u64,
    ) + lane_parts(commit.primary_lane) + number_parts(commit.parent_oids@.len() as u64)
        + oids_parts(commit.parent_oids@, commit.parent_oids@.len() as int) + segments_parts(
        commit.row_lanes@,
        commit.row_lanes@.len() as int,
    ) + labels_parts(commit.ref_labels@, commit.ref_labels@.len() as int)
}

/// What is hashed of the first commits.
pub open spec fn commits_parts(commits: Seq<CommitGraphNode>, count: int) -> Seq<Seq<u8>>
    decreases count,
{
    if count <= 0 {
        Seq::empty()
    } else {
        commits_parts(commits, count - 1) + commit_parts(commits[count - 1])
    }
}

fn hash_segments(hasher: &mut DefaultHasher, segments: &Vec<GraphLaneSegment>)
    ensures
        final(hasher)@ == old(hasher)@ + segments_parts(segments@, segments@.len() as int),
{
    let ghost before = hasher@;
    let mut i: usize = 0;
    assert(hasher@ =~= before + segments_parts(segments@, 0));
    while i < segments.len()
        invariant
            i <= segments@.len(),
            hasher@ == before + segments_parts(segments@, i as int),
        decreases segments@.len() - i,
    {
        let segment = segments[i];
        hash_lane(hasher, segment.lane);
        hash_byte(
            hasher,
            match segment.kind {
                GraphLaneKind::Through => 0,
                GraphLaneKind::End => 1,
                GraphLaneKind::MergeFromLeft => 2,
                GraphLaneKind::MergeFromRight => 3,
            },
        );
        match segment.target_lane {
            Some(lane) => {
                hash_byte(hasher, 1);
                hash_lane(hasher, lane);
            },
            None => {
                hash_byte(hasher, 0);
            },
        }
        i = i + 1;
        assert(hasher@ =~= before + segments_parts(segments@, i as int));
    }
}

fn hash_labels(hasher: &mut DefaultHasher, labels: &Vec<CommitRefLabel>)
    ensures
        final(hasher)@ == old(hasher)@ + labels_parts(labels@, labels@.len() as int),
{
    let ghost before = hasher@;
    let mut i: usize = 0;
    assert(hasher@ =~= before + labels_parts(labels@, 0));
    while i < labels.len()
        invariant
            i <= labels@.len(),
            hasher@ == before + labels_parts(labels@, i as int),
        decreases labels@.len() - i,
    {
        hash_text(hasher, labels[i].name.as_str());
        hash_byte(
            hasher,
            match labels[i].kind {
                CommitRefKind::Head => 0,
                CommitRefKind::LocalBranch => 1,
                CommitRefKind::RemoteBranch => 2,
            },
        );
        i = i + 1;
        assert(hasher@ =~= before + labels_parts(labels@, i as int));
    }
}

fn hash_oids(hasher: &mut DefaultHasher, oids: &Vec<Oid>)
    ensures
        final(hasher)@ == old(hasher)@ + oids_parts(oids@, oids@.len() as int),
{
    let ghost before = hasher@;
    let mut i: usize = 0;
    assert(hasher@ =~= before + oids_parts(oids@, 0));
    while i < oids.len()
        invariant
            i <= oids@.len(),
            hasher@ == before + oids_parts(oids@, i as int),
        decreases oids@.len() - i,
    {
        hash_oid(hasher, oids[i]);
        i = i + 1;
        assert(hasher@ =~= before + oids_parts(oids@, i as int));
    }
}

fn hash_commit(hasher: &mut DefaultHasher, commit: &CommitGraphNode)
    ensures
        final(hasher)@ == old(hasher)@ + commit_parts(*commit),
{
    let ghost before = hasher@;
    hash_oid(hasher, commit.oid);
    hash_text(hasher, commit.summary.as_str());
    hash_number(hasher, commit.authored_at_unix as u64);
    hash_lane(hasher, commit.primary_lane);
    hash_number(hasher, commit.parent_oids.len() as u64);
    hash_oids(hasher, &commit.parent_oids);
    hash_segments(hasher, &commit.row_lanes);
    hash_labels(hasher, &commit.ref_labels);
    assert(hasher@ =~= before + commit_parts(*commit));
}

fn hash_head(hasher: &mut DefaultHasher, head: &HeadState)
    ensures
        final(hasher)@ == old(hasher)@ + head_parts(*head),
{
    let ghost before = hasher@;
    match head {
        HeadState::Branch { name, oid } => {
            hash_text(hasher, "branch");
            hash_text(hasher, name.as_str());
            hash_oid(hasher, *oid);
        },
        HeadState::Detached { oid } => {
            hash_text(hasher, "detached");
            hash_oid(hasher, *oid);
        },
        HeadState::Unborn => {
            hash_text(hasher, "unborn");
        },
    }
    assert(hasher@ =~= before + head_parts(*head));
}

/// The key of the rows of commits.
pub open spec fn commit_rows_key(graph: RepositoryGraphDocument) -> CommitRowsCacheKey {
    CommitRowsCacheKey {
        content_hash: DefaultHasher::spec_finish(
            head_parts(graph.head) + commits_parts(graph.commits@, graph.commits@.len() as int),
        ),
    }
}

/// The key of the rows of commits: it changes with what is checked out and with what is drawn of
/// the commits.
pub fn commit_rows_cache_key(graph: &RepositoryGraphDocument) -> (key: CommitRowsCacheKey)
    ensures
        key == commit_rows_key(*graph),
{
    let mut hasher = DefaultHasher::new();
    hash_head(&mut hasher, &graph.head);
    let ghost head = head_parts(graph.head);
    assert(hasher@ =~= head);
    let mut i: usize = 0;
    assert(hasher@ =~= head + commits_parts(graph.commits@, 0));
    while i < graph.commits.len()
        invariant
            i <= graph.commits@.len(),
            hasher@ == head + commits_parts(graph.commits@, i as int),
        decreases graph.commits@.len() - i,
    {
        hash_commit(&mut hasher, &graph.commits[i]);
        i = i + 1;
        assert(hasher@ =~= head + commits_parts(graph.commits@, i as int));
    }
    CommitRowsCacheKey { content_hash: hasher.finish() }
}

proof fn lemma_ordered_names(names: Seq<Seq<char>>)
    ensures
        tree::names_ordered(ordered_names(names)),
        forall|name: Seq<char>| #[trigger]
            ordered_names(names).contains(name) == names.contains(name),
    decreases names.len(),
{
    if names.len() > 0 {
        let rest = names.drop_last();
        lemma_ordered_names(rest);
        tree::lemma_insert_name(ordered_names(rest), names.last());
        assert forall|name: Seq<char>| #[trigger] ordered_names(names).contains(
            name,
        ) == names.contains(name) by {
            assert(ordered_names(rest).contains(name) == rest.contains(name));
            if names.contains(name) {
                let k = choose|k: int| 0 <= k < names.len() && names[k] == name;
                if k < rest.len() {
                    assert(rest[k] == name);
                }
            }
            if rest.contains(name) {
                let k = choose|k: int| 0 <= k < rest.len() && rest[k] == name;
                assert(names[k] == name);
            }
            assert(names[names.len() - 1] == names.last());
        }
    }
}

/// The hash of a set of names is the same however the names are listed.
pub proof fn listing_order_keeps_names_hash(a: Seq<Seq<char>>, b: Seq<Seq<char>>)
    requires
        forall|name: Seq<char>| #[trigger] a.contains(name) == b.contains(name),
    ensures
        names_hash(a) == names_hash(b),
{
    lemma_ordered_names(a);
    lemma_ordered_names(b);
    assert forall|name: Seq<char>| #[trigger] ordered_names(a).contains(name) == ordered_names(
        b,
    ).contains(name) by {
        assert(a.contains(name) == b.contains(name));
    }
    tree::lemma_same_names(ordered_names(a), ordered_names(b));
}

/// Lists without repetition that hold the same names are equally long.
proof fn lemma_same_count(a: Seq<Seq<char>>, b: Seq<Seq<char>>)
    requires
        a.no_duplicates(),
        b.no_duplicates(),
        forall|name: Seq<char>| #[trigger] a.contains(name) == b.contains(name),
    ensures
        a.len() == b.len(),
{
    a.unique_seq_to_set();
    b.unique_seq_to_set();
    assert(a.to_set() =~= b.to_set());
}

/// The key of the rows of branches is the same however the occupied branches and the open remotes
/// are listed, each of them once.
pub proof fn listing_order_keeps_branch_key(
    graph: RepositoryGraphDocument,
    occupied: Seq<String>,
    expanded: Seq<String>,
    other_occupied: Seq<String>,
    other_expanded: Seq<String>,
    width: u16,
)
    requires
        strings::views(occupied).no_duplicates(),
        strings::views(expanded).no_duplicates(),
        strings::views(other_occupied).no_duplicates(),
        strings::views(other_expanded).no_duplicates(),
        forall|name: Seq<char>| #[trigger]
            strings::views(occupied).contains(name) == strings::views(other_occupied).contains(name),
        forall|name: Seq<char>| #[trigger]
            strings::views(expanded).contains(name) == strings::views(other_expanded).contains(name),
    ensures
        branch_rail_key(graph, occupied, expanded, width) == branch_rail_key(
            graph,
            other_occupied,
            other_expanded,
            width,
        ),
{
    listing_order_keeps_names_hash(strings::views(occupied), strings::views(other_occupied));
    listing_order_keeps_names_hash(strings::views(expanded), strings::views(other_expanded));
    lemma_same_count(strings::views(occupied), strings::views(other_occupied));
    lemma_same_count(strings::views(expanded), strings::views(other_expanded));
}

/// Numbers and names are hashed by bytes that tell them apart.
proof fn lemma_bytes_tell_apart(a: u64, b: u64, c: Oid, d: Oid, e: u16, f: u16)
    ensures
        vstd::bytes::spec_u64_to_le_bytes(a) == vstd::bytes::spec_u64_to_le_bytes(b) ==> a == b,
        oid_parts(c)[0] == oid_parts(d)[0] && oid_parts(c)[1] == oid_parts(d)[1] ==> c == d,
        vstd::bytes::spec_u16_to_le_bytes(e) == vstd::bytes::spec_u16_to_le_bytes(f) ==> e == f,
{
    vstd::bytes::lemma_auto_spec_u64_to_from_le_bytes();
    vstd::bytes::lemma_auto_spec_u32_to_from_le_bytes();
    vstd::bytes::lemma_auto_spec_u128_to_from_le_bytes();
    vstd::bytes::lemma_auto_spec_u16_to_from_le_bytes();
    assert(vstd::bytes::spec_u32_to_le_bytes(c.high).len() == 4);
    assert(vstd::bytes::spec_u32_to_le_bytes(d.high).len() == 4);
    assert(vstd::bytes::spec_u128_to_le_bytes(c.low).len() == 16);
    assert(vstd::bytes::spec_u128_to_le_bytes(d.low).len() == 16);
    assert(vstd::bytes::spec_u16_to_le_bytes(e).len() == 2);
    assert(vstd::bytes::spec_u16_to_le_bytes(f).len() == 2);
    assert(vstd::bytes::spec_u64_from_le_bytes(vstd::bytes::spec_u64_to_le_bytes(a)) == a);
    assert(vstd::bytes::spec_u64_from_le_bytes(vstd::bytes::spec_u64_to_le_bytes(b)) == b);
    assert(vstd::bytes::spec_u32_from_le_bytes(vstd::bytes::spec_u32_to_le_bytes(c.high))
        == c.high);
    assert(vstd::bytes::spec_u32_from_le_bytes(vstd::bytes::spec_u32_to_le_bytes(d.high))
        == d.high);
    assert(vstd::bytes::spec_u128_from_le_bytes(vstd::bytes::spec_u128_to_le_bytes(c.low))
        == c.low);
    assert(vstd::bytes::spec_u128_from_le_bytes(vstd::bytes::spec_u128_to_le_bytes(d.low))
        == d.low);
    assert(vstd::bytes::spec_u16_from_le_bytes(vstd::bytes::spec_u16_to_le_bytes(e)) == e);
    assert(vstd::bytes::spec_u16_from_le_bytes(vstd::bytes::spec_u16_to_le_bytes(f)) == f);
}

proof fn lemma_text_bytes(a: Seq<char>, b: Seq<char>)
    ensures
        text::bytes_of(a) == text::bytes_of(b) ==> a == b,
{
    if text::bytes_of(a) == text::bytes_of(b) {
        text::lemma_bytes_injective(a, b);
    }
}

/// What is hashed of a local branch tells everything that its row shows: branches of which the same
/// is hashed have the same name, reference and target, are checked out or not, and track the same
/// branch equally far ahead and behind.
pub proof fn hashed_local_branch_tells_its_row(a: LocalBranchEntry, b: LocalBranchEntry)
    requires
        local_branch_parts(a) == local_branch_parts(b),
    ensures
        a.name@ == b.name@,
        a.full_ref@ == b.full_ref@,
        a.target == b.target,
        a.is_head == b.is_head,
        a.upstream is Some == b.upstream is Some,
        a.upstream is Some ==> a.upstream->0.remote_name@ == b.upstream->0.remote_name@
            && a.upstream->0.remote_ref@ == b.upstream->0.remote_ref@ && a.upstream->0.ahead
            == b.upstream->0.ahead && a.upstream->0.behind == b.upstream->0.behind,
{
    let x = local_branch_parts(a);
    let y = local_branch_parts(b);
    assert(x[0] == text::bytes_of(a.name@) && y[0] == text::bytes_of(b.name@));
    assert(x[2] == text::bytes_of(a.full_ref@) && y[2] == text::bytes_of(b.full_ref@));
    assert(x[4] == oid_parts(a.target)[0] && y[4] == oid_parts(b.target)[0]);
    assert(x[5] == oid_parts(a.target)[1] && y[5] == oid_parts(b.target)[1]);
    assert(x[6] == flag_parts(a.is_head)[0] && y[6] == flag_parts(b.is_head)[0]);
    assert(flag_parts(a.is_head)[0][0] == flag_parts(b.is_head)[0][0]);
    lemma_text_bytes(a.name@, b.name@);
    lemma_text_bytes(a.full_ref@, b.full_ref@);
    lemma_bytes_tell_apart(0, 0, a.target, b.target, 0, 0);
    assert(x.len() == if a.upstream is Some {
        13int
    } else {
        7int
    });
    assert(y.len() == if b.upstream is Some {
        13int
    } else {
        7int
    });
    if a.upstream is Some {
        let u = a.upstream->0;
        let v = b.upstream->0;
        assert(x[7] == text::bytes_of(u.remote_name@) && y[7] == text::bytes_of(v.remote_name@));
        assert(x[9] == text::bytes_of(u.remote_ref@) && y[9] == text::bytes_of(v.remote_ref@));
        assert(x[11] == number_parts(u.ahead as u64)[0] && y[11] == number_parts(
            v.ahead as u64,
        )[0]);
        assert(x[12] == number_parts(u.behind as u64)[0] && y[12] == number_parts(
            v.behind as u64,
        )[0]);
        lemma_text_bytes(u.remote_name@, v.remote_name@);
        lemma_text_bytes(u.remote_ref@, v.remote_ref@);
        lemma_bytes_tell_apart(u.ahead as u64, v.ahead as u64, a.target, b.target, 0, 0);
        lemma_bytes_tell_apart(u.behind as u64, v.behind as u64, a.target, b.target, 0, 0);
    }
}

/// What is hashed of a branch of a remote tells everything that its row shows.
pub proof fn hashed_remote_branch_tells_its_row(a: RemoteBranchEntry, b: RemoteBranchEntry)
    requires
        remote_branch_parts(a) == remote_branch_parts(b),
    ensures
        a.remote_name@ == b.remote_name@,
        a.short_name@ == b.short_name@,
        a.full_ref@ == b.full_ref@,
        a.target == b.target,
        strings::optional_view(a.tracked_by_local) == strings::optional_view(b.tracked_by_local),
{
    let x = remote_branch_parts(a);
    let y = remote_branch_parts(b);
    assert(x[0] == text::bytes_of(a.remote_name@) && y[0] == text::bytes_of(b.remote_name@));
    assert(x[2] == text::bytes_of(a.short_name@) && y[2] == text::bytes_of(b.short_name@));
    assert(x[4] == text::bytes_of(a.full_ref@) && y[4] == text::bytes_of(b.full_ref@));
    assert(x[6] == oid_parts(a.target)[0] && y[6] == oid_parts(b.target)[0]);
    assert(x[7] == oid_parts(a.target)[1] && y[7] == oid_parts(b.target)[1]);
    lemma_text_bytes(a.remote_name@, b.remote_name@);
    lemma_text_bytes(a.short_name@, b.short_name@);
    lemma_text_bytes(a.full_ref@, b.full_ref@);
    lemma_bytes_tell_apart(0, 0, a.target, b.target, 0, 0);
    assert(x.len() == if a.tracked_by_local is Some {
        11int
    } else {
        9int
    });
    assert(y.len() == if b.tracked_by_local is Some {
        11int
    } else {
        9int
    });
    if a.tracked_by_local is Some {
        assert(x[9] == text::bytes_of(a.tracked_by_local->0@) && y[9] == text::bytes_of(
            b.tracked_by_local->0@,
        ));
        lemma_text_bytes(a.tracked_by_local->0@, b.tracked_by_local->0@);
    }
}

/// What is hashed of a lane in a row tells the lane, how it passes and where it goes.
pub proof fn hashed_lane_tells_its_segment(a: GraphLaneSegment, b: GraphLaneSegment)
    requires
        segment_parts(a) == segment_parts(b),
    ensures
        a.lane == b.lane,
        a.kind == b.kind,
        a.target_lane == b.target_lane,
{
    let x = segment_parts(a);
    let y = segment_parts(b);
    let o = Oid { high: 0, low: 0 };
    assert(x[0] == lane_parts(a.lane)[0] && y[0] == lane_parts(b.lane)[0]);
    assert(x[1] == lane_kind_parts(a.kind)[0] && y[1] == lane_kind_parts(b.kind)[0]);
    assert(lane_kind_parts(a.kind)[0][0] == lane_kind_parts(b.kind)[0][0]);
    lemma_bytes_tell_apart(0, 0, o, o, a.lane, b.lane);
    assert(x.len() == if a.target_lane is Some {
        4int
    } else {
        3int
    });
    assert(y.len() == if b.target_lane is Some {
        4int
    } else {
        3int
    });
    if a.target_lane is Some {
        assert(x[3] == lane_parts(a.target_lane->0)[0] && y[3] == lane_parts(b.target_lane->0)[0]);
        lemma_bytes_tell_apart(0, 0, o, o, a.target_lane->0, b.target_lane->0);
    }
}

/// What is hashed of a label tells its name and its kind.
pub proof fn hashed_label_tells_its_kind(a: CommitRefLabel, b: CommitRefLabel)
    requires
        label_parts(a) == label_parts(b),
    ensures
        a.name@ == b.name@,
        a.kind == b.kind,
{
    let x = label_parts(a);
    let y = label_parts(b);
    assert(x[0] == text::bytes_of(a.name@) && y[0] == text::bytes_of(b.name@));
    lemma_text_bytes(a.name@, b.name@);
    assert(x[2][0] == y[2][0]);
}

/// What is hashed first of a commit.
proof fn lemma_commit_front(commit: CommitGraphNode)
    ensures
        ({
            let parts = commit_parts(commit);
            &&& parts[0] == oid_parts(commit.oid)[0]
            &&& parts[1] == oid_parts(commit.oid)[1]
            &&& parts[2] == text::bytes_of(commit.summary@)
            &&& parts[4] == vstd::bytes::spec_u64_to_le_bytes(commit.authored_at_unix as u64)
            &&& parts[5] == vstd::bytes::spec_u16_to_le_bytes(commit.primary_lane)
            &&& parts[6] == vstd::bytes::spec_u64_to_le_bytes(commit.parent_oids@.len() as u64)
        }),
{
    let front = oid_parts(commit.oid) + text_parts(commit.summary@) + number_parts(
        commit.authored_at_unix as u64,
    ) + lane_parts(commit.primary_lane) + number_parts(commit.parent_oids@.len() as u64);
    assert(front.len() == 7);
    let oids = oids_parts(commit.parent_oids@, commit.parent_oids@.len() as int);
    let lanes = segments_parts(commit.row_lanes@, commit.row_lanes@.len() as int);
    let labels = labels_parts(commit.ref_labels@, commit.ref_labels@.len() as int);
    assert(commit_parts(commit) == front + oids + lanes + labels);
    assert forall|i: int| 0 <= i < 7 implies (front + oids + lanes + labels)[i] == #[trigger] front[i] by {}
    assert(front[0] == oid_parts(commit.oid)[0]);
    assert(front[1] == oid_parts(commit.oid)[1]);
    assert(front[2] == text_parts(commit.summary@)[0]);
    assert(front[4] == number_parts(commit.authored_at_unix as u64)[0]);
    assert(front[5] == lane_parts(commit.primary_lane)[0]);
    assert(front[6] == number_parts(commit.parent_oids@.len() as u64)[0]);
}

/// What is hashed of a commit tells its name, its summary, when it was written, its lane and how many
/// parents it has.
pub proof fn hashed_commit_tells_its_row(a: CommitGraphNode, b: CommitGraphNode)
    requires
        commit_parts(a) == commit_parts(b),
        a.parent_oids@.len() <= u64::MAX,
        b.parent_oids@.len() <= u64::MAX,
    ensures
        a.oid == b.oid,
        a.summary@ == b.summary@,
        a.authored_at_unix as u64 == b.authored_at_unix as u64,
        a.primary_lane == b.primary_lane,
        a.parent_oids@.len() == b.parent_oids@.len(),
{
    lemma_commit_front(a);
    lemma_commit_front(b);
    lemma_text_bytes(a.summary@, b.summary@);
    lemma_bytes_tell_apart(
        a.authored_at_unix as u64,
        b.authored_at_unix as u64,
        a.oid,
        b.oid,
        a.primary_lane,
        b.primary_lane,
    );
    lemma_bytes_tell_apart(
        a.parent_oids@.len() as u64,
        b.parent_oids@.len() as u64,
        a.oid,
        b.oid,
        a.primary_lane,
        b.primary_lane,
    );
}

/// What is hashed of what is checked out tells the branch and the commit.
pub proof fn hashed_head_tells_the_branch(
    a: String,
    b: String,
    first: Oid,
    second: Oid,
)
    requires
        head_parts(HeadState::Branch { name: a, oid: first }) == head_parts(
            HeadState::Branch { name: b, oid: second },
        ),
    ensures
        a@ == b@,
        first == second,
{
    let x = head_parts(HeadState::Branch { name: a, oid: first });
    let y = head_parts(HeadState::Branch { name: b, oid: second });
    assert(x[2] == text::bytes_of(a@) && y[2] == text::bytes_of(b@));
    assert(x[4] == oid_parts(first)[0] && y[4] == oid_parts(second)[0]);
    assert(x[5] == oid_parts(first)[1] && y[5] == oid_parts(second)[1]);
    lemma_text_bytes(a@, b@);
    lemma_bytes_tell_apart(0, 0, first, second, 0, 0);
}

/// The key of the rows of branches changes with the width of the pane, with how many branches are
/// occupied and with how many remotes are open.
pub proof fn branch_key_follows_the_layout(
    graph: RepositoryGraphDocument,
    occupied: Seq<String>,
    expanded: Seq<String>,
    other_occupied: Seq<String>,
    other_expanded: Seq<String>,
    width: u16,
    other_width: u16,
)
    requires
        occupied.len() <= usize::MAX,
        expanded.len() <= usize::MAX,
        other_occupied.len() <= usize::MAX,
        other_expanded.len() <= usize::MAX,
        branch_rail_key(graph, occupied, expanded, width) == branch_rail_key(
            graph,
            other_occupied,
            other_expanded,
            other_width,
        ),
    ensures
        width == other_width,
        occupied.len() == other_occupied.len(),
        expanded.len() == other_expanded.len(),
        names_hash(strings::views(occupied)) == names_hash(strings::views(other_occupied)),
        names_hash(strings::views(expanded)) == names_hash(strings::views(other_expanded)),
{
}

/// The names that are hashed are in order, each of them once, and are exactly those that are listed.
pub proof fn hashed_names_are_the_listed_ones(names: Seq<Seq<char>>, name: Seq<char>)
    ensures
        tree::names_ordered(ordered_names(names)),
        ordered_names(names).contains(name) == names.contains(name),
{
    lemma_ordered_names(names);
}

} // verus!
