//! The chunk lifecycle state machine: which chunks are tracked, what
//! state each is in, what state it needs, and the transitions dispatched
//! to reach it.
//!
//! States only ever advance (empty, generating, generated, rendering,
//! rendered); the only way back is removal, which flushes generated voxel
//! data to the region store.

use crate::chunk::{Chunk, NeighborChunkSlices};
use crate::ivec::IVec3;
use crate::pos::ChunkPos;
use crate::posmap::PosMap;
use crate::world_noise::Chunk2dNoiseValues;
use vstd::prelude::*;

verus! {

/// How far a chunk has come along its lifecycle.
#[derive(Debug, Copy, Clone, PartialEq, Eq, Structural)]
pub enum ChunkState {
    Empty,
    Generating,
    Generated,
    Rendering,
    Rendered,
}

impl Default for ChunkState {
    fn default() -> (r: Self)
        ensures
            r == ChunkState::Empty,
    {
        ChunkState::Empty
    }
}

/// The lifecycle order of the states.
pub open spec fn state_rank(s: ChunkState) -> int {
    match s {
        ChunkState::Empty => 0,
        ChunkState::Generating => 1,
        ChunkState::Generated => 2,
        ChunkState::Rendering => 3,
        ChunkState::Rendered => 4,
    }
}

/// The state a chunk is required to reach.
#[derive(Debug, Copy, Clone, PartialEq, Eq, Structural)]
pub enum NeededChunkState {
    DontNeed,
    Generated,
    Rendered,
}

impl Default for NeededChunkState {
    fn default() -> (r: Self)
        ensures
            r == NeededChunkState::DontNeed,
    {
        NeededChunkState::DontNeed
    }
}

/// A transition to dispatch for one chunk.
#[derive(Debug, Copy, Clone, PartialEq, Eq, Structural)]
pub enum NeededStateChange {
    Generate,
    Render,
    Delete,
}

/// One tracked chunk: its data once generated, its current state, and
/// the state the loader needs it in.
#[derive(Debug)]
pub struct LoadedChunk {
    pub chunk: Option<Chunk>,
    pub state: ChunkState,
    pub needed_state: NeededChunkState,
    pub pos: IVec3,
}

impl LoadedChunk {
    /// Chunk data is present exactly from `Generated` onward, and is
    /// itself well-formed.
    pub open spec fn wf(self) -> bool {
        &&& (state_rank(self.state) >= 2 <==> self.chunk is Some)
        &&& (self.chunk matches Some(c) ==> c.wf())
    }
}

/// Chunk states never move backward: every chunk tracked across a step
/// keeps at least its rank.
pub open spec fn states_advance(
    pre: Map<IVec3, LoadedChunk>,
    post: Map<IVec3, LoadedChunk>,
) -> bool {
    forall|k: IVec3|
        pre.contains_key(k) && post.contains_key(k) ==> state_rank((#[trigger] post[k]).state)
            >= state_rank(pre[k].state)
}

/// State-machine monotonicity across whole histories: over any sequence
/// of steps that each advance states, a chunk that stays tracked
/// throughout never moves backward — its state only advances, in order,
/// unless it is removed.
pub proof fn lemma_states_monotonic_over_history(
    history: Seq<Map<IVec3, LoadedChunk>>,
    k: IVec3,
    i: int,
    j: int,
)
    requires
        forall|n: int| 0 <= n < history.len() - 1 ==> states_advance(
            #[trigger] history[n],
            history[n + 1],
        ),
        forall|n: int| 0 <= n < history.len() ==> (#[trigger] history[n]).contains_key(k),
        0 <= i <= j < history.len(),
    ensures
        state_rank(history[j][k].state) >= state_rank(history[i][k].state),
    decreases j - i,
{
    if i < j {
        lemma_states_monotonic_over_history(history, k, i, j - 1);
        assert(states_advance(history[j - 1], history[j]));
    }
}

/// The magnitude of a coordinate difference.
pub open spec fn abs1(v: int) -> int {
    if v < 0 {
        -v
    } else {
        v
    }
}

/// Whether a position lies within the cubic radius around the loader.
pub open spec fn in_cube(k: IVec3, loader: ChunkPos, r: int) -> bool {
    abs1(k.x - loader.0.x) <= r && abs1(k.y - loader.0.y) <= r && abs1(k.z - loader.0.z) <= r
}

/// The needed state of an in-range position: the outer shell needs only
/// generation (for neighbor culling), the interior needs rendering.
pub open spec fn shell_needed(k: IVec3, loader: ChunkPos, r: int) -> NeededChunkState {
    if abs1(k.x - loader.0.x) == r || abs1(k.y - loader.0.y) == r || abs1(k.z - loader.0.z)
        == r {
        NeededChunkState::Generated
    } else {
        NeededChunkState::Rendered
    }
}

/// Loader coordinates far enough from the `i32` edges that radius
/// offsets cannot overflow.
pub open spec fn loader_in_range(loader: ChunkPos) -> bool {
    &&& -100000000 <= loader.0.x <= 100000000
    &&& -100000000 <= loader.0.y <= 100000000
    &&& -100000000 <= loader.0.z <= 100000000
}

/// What stays fixed while needed states are rewritten: positions outside
/// the cube are tracked as before and not needed; tracked chunks keep
/// their state and data; newly tracked chunks start empty.
pub open spec fn cube_frame(
    pre: Map<IVec3, LoadedChunk>,
    cur: Map<IVec3, LoadedChunk>,
    loader: ChunkPos,
    r: int,
) -> bool {
    &&& forall|k: IVec3|
        !in_cube(k, loader, r) ==> (cur.contains_key(k) == pre.contains_key(k) && (
        cur.contains_key(k) ==> (#[trigger] cur[k]).needed_state == NeededChunkState::DontNeed))
    &&& forall|k: IVec3|
        pre.contains_key(k) ==> cur.contains_key(k) && (#[trigger] cur[k]).state == pre[k].state
            && cur[k].chunk == pre[k].chunk && cur[k].pos == pre[k].pos
    &&& forall|k: IVec3|
        cur.contains_key(k) && !pre.contains_key(k) ==> (#[trigger] cur[k]).state
            == ChunkState::Empty && cur[k].chunk is None
}

/// The transition a tracked chunk needs, if any: out-of-range or
/// unneeded chunks are deleted, chunks short of their needed state are
/// generated or rendered, chunks already under way or done need nothing.
pub open spec fn needed_change(
    lc: LoadedChunk,
    pos: ChunkPos,
    loader: ChunkPos,
    r: int,
) -> Option<NeededStateChange> {
    if !in_cube(pos.0, loader, r) {
        Some(NeededStateChange::Delete)
    } else {
        match lc.needed_state {
            NeededChunkState::DontNeed => Some(NeededStateChange::Delete),
            NeededChunkState::Generated => match lc.state {
                ChunkState::Empty => Some(NeededStateChange::Generate),
                _ => None,
            },
            NeededChunkState::Rendered => match lc.state {
                ChunkState::Empty => Some(NeededStateChange::Generate),
                ChunkState::Generated => Some(NeededStateChange::Render),
                _ => None,
            },
        }
    }
}

/// One dispatch step keeps the progress facts: every already-handled
/// Generate or Render change still has its transition taken afterwards,
/// and the change just handled has taken its own.
proof fn lemma_progress_step(
    changes: Seq<(ChunkPos, NeededStateChange)>,
    pre: Map<IVec3, LoadedChunk>,
    w0: FixedChunkWorld,
    before: Map<IVec3, LoadedChunk>,
    after: Map<IVec3, LoadedChunk>,
    j: int,
    p: ChunkPos,
    change: NeededStateChange,
)
    requires
        0 <= j < changes.len(),
        changes[j] == (p, change),
        forall|k: IVec3|
            k != p.0 ==> #[trigger] after.contains_key(k) == before.contains_key(k) && (
            after.contains_key(k) ==> after[k] == before[k]),
        change == NeededStateChange::Delete ==> has_delete_for(changes, p.0),
        change == NeededStateChange::Generate && before.contains_key(p.0) && before[p.0].state
            != ChunkState::Empty ==> after == before,
        change == NeededStateChange::Generate && !before.contains_key(p.0) ==> after == before,
        change == NeededStateChange::Render && before.contains_key(p.0) && before[p.0].state
            != ChunkState::Generated ==> after == before,
        change == NeededStateChange::Render && !before.contains_key(p.0) ==> after == before,
        change == NeededStateChange::Generate && pre.contains_key(p.0) && pre[p.0].state
            == ChunkState::Empty && !has_delete_for(changes, p.0) ==> after.contains_key(p.0)
            && after[p.0].state == ChunkState::Generating,
        change == NeededStateChange::Render && pre.contains_key(p.0) && pre[p.0].state
            == ChunkState::Generated && neighbors_ready(w0, p) && !has_delete_for(changes, p.0)
            && (forall|a: crate::axis::VoxelAxis|
            !has_delete_for(changes, #[trigger] axis_offset(p.0, a))) ==> after.contains_key(
            p.0,
        ) && after[p.0].state == ChunkState::Rendering,
        forall|j0: int|
            0 <= j0 < j && (#[trigger] changes[j0]).1 == NeededStateChange::Generate
                && pre.contains_key(changes[j0].0.0) && pre[changes[j0].0.0].state
                == ChunkState::Empty && !has_delete_for(changes, changes[j0].0.0)
                ==> before.contains_key(changes[j0].0.0) && before[changes[j0].0.0].state
                == ChunkState::Generating,
        forall|j0: int|
            0 <= j0 < j && (#[trigger] changes[j0]).1 == NeededStateChange::Render
                && pre.contains_key(changes[j0].0.0) && pre[changes[j0].0.0].state
                == ChunkState::Generated && neighbors_ready(w0, changes[j0].0)
                && !has_delete_for(changes, changes[j0].0.0) && (forall|
                a: crate::axis::VoxelAxis,
            |
                !has_delete_for(changes, #[trigger] axis_offset(changes[j0].0.0, a)))
                ==> before.contains_key(changes[j0].0.0) && before[changes[j0].0.0].state
                == ChunkState::Rendering,
    ensures
        forall|j0: int|
            0 <= j0 < j + 1 && (#[trigger] changes[j0]).1 == NeededStateChange::Generate
                && pre.contains_key(changes[j0].0.0) && pre[changes[j0].0.0].state
                == ChunkState::Empty && !has_delete_for(changes, changes[j0].0.0)
                ==> after.contains_key(changes[j0].0.0) && after[changes[j0].0.0].state
                == ChunkState::Generating,
        forall|j0: int|
            0 <= j0 < j + 1 && (#[trigger] changes[j0]).1 == NeededStateChange::Render
                && pre.contains_key(changes[j0].0.0) && pre[changes[j0].0.0].state
                == ChunkState::Generated && neighbors_ready(w0, changes[j0].0)
                && !has_delete_for(changes, changes[j0].0.0) && (forall|
                a: crate::axis::VoxelAxis,
            |
                !has_delete_for(changes, #[trigger] axis_offset(changes[j0].0.0, a)))
                ==> after.contains_key(changes[j0].0.0) && after[changes[j0].0.0].state
                == ChunkState::Rendering,
{
    assert forall|j0: int|
        0 <= j0 < j + 1 && (#[trigger] changes[j0]).1 == NeededStateChange::Generate
            && pre.contains_key(changes[j0].0.0) && pre[changes[j0].0.0].state
            == ChunkState::Empty && !has_delete_for(changes, changes[j0].0.0) implies
        after.contains_key(changes[j0].0.0) && after[changes[j0].0.0].state
            == ChunkState::Generating by {
        let k0 = changes[j0].0.0;
        if j0 < j && k0 == p.0 {
            match change {
                NeededStateChange::Generate => {
                    assert(after == before);
                },
                NeededStateChange::Render => {
                    assert(after == before);
                },
                NeededStateChange::Delete => {
                    assert(false);
                },
            }
        }
        assert(after.contains_key(k0));
        assert(after[k0].state == ChunkState::Generating);
    }
    assert forall|j0: int|
        0 <= j0 < j + 1 && (#[trigger] changes[j0]).1 == NeededStateChange::Render
            && pre.contains_key(changes[j0].0.0) && pre[changes[j0].0.0].state
            == ChunkState::Generated && neighbors_ready(w0, changes[j0].0)
            && !has_delete_for(changes, changes[j0].0.0) && (forall|a: crate::axis::VoxelAxis|
            !has_delete_for(changes, #[trigger] axis_offset(changes[j0].0.0, a))) implies
        after.contains_key(changes[j0].0.0) && after[changes[j0].0.0].state
            == ChunkState::Rendering by {
        let k0 = changes[j0].0.0;
        if j0 < j && k0 == p.0 {
            match change {
                NeededStateChange::Generate => {
                    assert(after == before);
                },
                NeededStateChange::Render => {
                    assert(after == before);
                },
                NeededStateChange::Delete => {
                    assert(false);
                },
            }
        }
        if j0 == j {
            assert(changes[j0].0 == p);
        }
        assert(after.contains_key(k0));
        assert(after[k0].state == ChunkState::Rendering);
    }
}

/// Stable insertion sort of transition entries by squared distance of
/// their position from the loader, ascending; keeps exactly the same
/// entries.
/// No two entries of a change list name the same chunk position.
pub open spec fn change_positions_distinct(changes: Seq<(ChunkPos, NeededStateChange)>) -> bool {
    forall|a: int, b: int|
        0 <= a < b < changes.len() ==> (#[trigger] changes[a]).0 != (#[trigger] changes[b]).0
}

fn sort_changes_by_distance(
    loader: ChunkPos,
    changes: Vec<(ChunkPos, NeededStateChange)>,
) -> (r: Vec<(ChunkPos, NeededStateChange)>)
    ensures
        r@.to_multiset() == changes@.to_multiset(),
        r@.len() == changes@.len(),
        forall|i: int, j: int|
            0 <= i < j < r@.len() ==> crate::ivec::dist_sq((#[trigger] r@[i]).0.0, loader.0)
                <= crate::ivec::dist_sq((#[trigger] r@[j]).0.0, loader.0),
        change_positions_distinct(changes@) ==> change_positions_distinct(r@),
{
    broadcast use vstd::seq_lib::group_to_multiset_ensures;

    let mut v = changes;
    let ghost orig = v@;
    let mut i: usize = 1;
    while i < v.len()
        invariant
            1 <= i,
            v@.len() == orig.len(),
            v@.to_multiset() == orig.to_multiset(),
            change_positions_distinct(orig) ==> change_positions_distinct(v@),
            forall|a: int, b: int|
                0 <= a < b < i && b < v@.len() ==> crate::ivec::dist_sq(
                    (#[trigger] v@[a]).0.0,
                    loader.0,
                ) <= crate::ivec::dist_sq((#[trigger] v@[b]).0.0, loader.0),
        decreases v@.len() - i,
    {
        let ghost before = v@;
        let x = v.remove(i);
        let mut p: usize = i;
        while p > 0 && v[p - 1].0.0.distance_squared(loader.0) > x.0.0.distance_squared(loader.0)
            invariant
                p <= i,
                i < before.len(),
                v@ == before.remove(i as int),
                forall|q: int|
                    p <= q < i ==> crate::ivec::dist_sq((#[trigger] v@[q]).0.0, loader.0)
                        > crate::ivec::dist_sq(x.0.0, loader.0),
            decreases p,
        {
            p -= 1;
        }
        proof {
            assert(v@.len() + 1 == before.len());
        }
        v.insert(p, x);
        proof {
            broadcast use vstd::multiset::group_multiset_axioms;

            assert(v@ == before.remove(i as int).insert(p as int, x));
            assert(before[i as int] == x);
            assert(before.contains(x));
            vstd::seq_lib::to_multiset_remove(before, i as int);
            vstd::seq_lib::to_multiset_insert(before.remove(i as int), p as int, x);
            before.to_multiset_ensures();
            assert(before.to_multiset().count(x) > 0);
            assert(v@.to_multiset() == before.to_multiset().remove(x).insert(x));
            assert(v@.to_multiset() =~= before.to_multiset());
            assert(v@.to_multiset() == orig.to_multiset());
            assert forall|a: int, b: int|
                0 <= a < b < i + 1 && b < v@.len() implies crate::ivec::dist_sq(
                (#[trigger] v@[a]).0.0,
                loader.0,
            ) <= crate::ivec::dist_sq((#[trigger] v@[b]).0.0, loader.0) by {
                let w = before.remove(i as int);
                if a < p {
                    assert(v@[a] == w[a]);
                } else if a == p {
                    assert(v@[a] == x);
                } else {
                    assert(v@[a] == w[a - 1]);
                }
                if b < p {
                    assert(v@[b] == w[b]);
                } else if b == p {
                    assert(v@[b] == x);
                } else {
                    assert(v@[b] == w[b - 1]);
                }
                if p > 0 {
                    assert(crate::ivec::dist_sq(w[p - 1].0.0, loader.0) <= crate::ivec::dist_sq(
                        x.0.0,
                        loader.0,
                    ));
                }
            }
            if change_positions_distinct(orig) {
                assert forall|a: int, b: int|
                    0 <= a < b < v@.len() implies (#[trigger] v@[a]).0 != (
                #[trigger] v@[b]).0 by {
                    let w = before.remove(i as int);
                    let ma: int = if a < p {
                        a
                    } else if a == p {
                        i as int
                    } else if a - 1 < i {
                        a - 1
                    } else {
                        a
                    };
                    let mb: int = if b < p {
                        b
                    } else if b == p {
                        i as int
                    } else if b - 1 < i {
                        b - 1
                    } else {
                        b
                    };
                    assert(v@[a] == before[ma]);
                    assert(v@[b] == before[mb]);
                    assert(ma != mb);
                    if ma < mb {
                        assert(before[ma].0 != before[mb].0);
                    } else {
                        assert(before[mb].0 != before[ma].0);
                    }
                }
            }
        }
        i += 1;
    }
    v
}

/// The position one step from `k` along an axis.
pub open spec fn axis_offset(k: IVec3, a: crate::axis::VoxelAxis) -> IVec3 {
    IVec3 {
        x: (k.x + a.unit_spec().0) as i32,
        y: (k.y + a.unit_spec().1) as i32,
        z: (k.z + a.unit_spec().2) as i32,
    }
}

/// Whether the six neighbors of a position all hold generated chunk data.
#[verifier::opaque]
pub open spec fn neighbors_ready(w: FixedChunkWorld, chunk: ChunkPos) -> bool {
    forall|a: crate::axis::VoxelAxis|
        w.chunks@.contains_key(#[trigger] axis_offset(chunk.0, a)) && w.chunks@[axis_offset(
            chunk.0,
            a,
        )].chunk is Some
}

/// One piece of asynchronous work dispatched by the state machine. The
/// driving loop runs it off the main thread and hands the result back.
pub enum ChunkWork {
    /// Produce voxel data for a chunk: from persisted data if the region
    /// store has it, else from the terrain generator.
    Generate { pos: ChunkPos, cached_noise: Option<Chunk2dNoiseValues> },
    /// Mesh a generated chunk against its neighbors' boundary planes.
    Render { pos: ChunkPos, chunk: Chunk, neighbors: NeighborChunkSlices },
}

/// A finished generation task: the chunk's voxel data, and the column
/// noise if it had to be sampled fresh.
pub struct GenerateResult {
    pub pos: ChunkPos,
    pub chunk: Chunk,
    pub new_noise: Option<Chunk2dNoiseValues>,
}

/// A finished render task: the mesh, or nothing for an all-culled chunk.
pub struct RenderResult {
    pub pos: ChunkPos,
    pub mesh: Option<crate::mesh::ChunkMeshData>,
}

/// The cache key of a chunk's noise column.
pub open spec fn noise_key(p: ChunkPos) -> IVec3 {
    IVec3 { x: p.0.x, y: 0, z: p.0.z }
}

/// The render phase's frame: keys, data, needed states and positions
/// are untouched; states move only from mid-render to rendered; entries
/// no input result names are bitwise unchanged.
#[verifier::opaque]
pub open spec fn render_shape(
    mid: Map<IVec3, LoadedChunk>,
    cur: Map<IVec3, LoadedChunk>,
    ren: Seq<RenderResult>,
) -> bool {
    &&& forall|k: IVec3| #[trigger] cur.contains_key(k) == mid.contains_key(k)
    &&& forall|k: IVec3|
        mid.contains_key(k) ==> (#[trigger] cur[k]).chunk == mid[k].chunk && cur[k].needed_state
            == mid[k].needed_state && cur[k].pos == mid[k].pos && (cur[k].state == mid[k].state
            || (mid[k].state == ChunkState::Rendering && cur[k].state == ChunkState::Rendered))
    &&& forall|k: IVec3|
        mid.contains_key(k) && (forall|j: int|
            0 <= j < ren.len() ==> (#[trigger] ren[j]).pos.0 != k) ==> #[trigger] cur[k] == mid[
        k]
}

/// Every emitted mesh comes from an input render result whose chunk was
/// mid-render and is rendered now.
#[verifier::opaque]
pub open spec fn emitted_sound(
    emitted: Seq<(ChunkPos, crate::mesh::ChunkMeshData)>,
    ren: Seq<RenderResult>,
    mid: Map<IVec3, LoadedChunk>,
    cur: Map<IVec3, LoadedChunk>,
) -> bool {
    forall|e: int|
        0 <= e < emitted.len() ==> {
            &&& exists|j: int|
                0 <= j < ren.len() && (#[trigger] ren[j]).pos == (#[trigger] emitted[e]).0 && ren[
                j].mesh == Some(emitted[e].1)
            &&& mid.contains_key(emitted[e].0.0)
            &&& mid[emitted[e].0.0].state == ChunkState::Rendering
            &&& cur[emitted[e].0.0].state == ChunkState::Rendered
        }
}

/// Meshes go out in ascending distance from the loader, and everything
/// still pending lies at least as far out as everything already out.
#[verifier::opaque]
pub open spec fn emit_ordered(
    loader: Option<ChunkPos>,
    emitted: Seq<(ChunkPos, crate::mesh::ChunkMeshData)>,
    sorted: Seq<RenderResult>,
) -> bool {
    loader matches Some(lp) ==> {
        &&& forall|e1: int, e2: int|
            0 <= e1 < e2 < emitted.len() ==> crate::ivec::dist_sq(
                (#[trigger] emitted[e1]).0.0,
                lp.0,
            ) <= crate::ivec::dist_sq((#[trigger] emitted[e2]).0.0, lp.0)
        &&& forall|e1: int, s1: int|
            0 <= e1 < emitted.len() && 0 <= s1 < sorted.len() ==> crate::ivec::dist_sq(
                (#[trigger] emitted[e1]).0.0,
                lp.0,
            ) <= crate::ivec::dist_sq((#[trigger] sorted[s1]).pos.0, lp.0)
        &&& forall|s1: int, s2: int|
            0 <= s1 < s2 < sorted.len() ==> crate::ivec::dist_sq(
                (#[trigger] sorted[s1]).pos.0,
                lp.0,
            ) <= crate::ivec::dist_sq((#[trigger] sorted[s2]).pos.0, lp.0)
    }
}

/// A mid-render chunk one of the walked results names is rendered once
/// no pending or returned result names it any more.
#[verifier::opaque]
pub open spec fn render_progress(
    mid: Map<IVec3, LoadedChunk>,
    sorted0: Seq<RenderResult>,
    leftover: Seq<RenderResult>,
    sorted: Seq<RenderResult>,
    cur: Map<IVec3, LoadedChunk>,
) -> bool {
    forall|k: IVec3|
        mid.contains_key(k) && mid[k].state == ChunkState::Rendering && (exists|j: int|
            0 <= j < sorted0.len() && (#[trigger] sorted0[j]).pos.0 == k) && (forall|e: int|
            0 <= e < leftover.len() ==> (#[trigger] leftover[e]).pos.0 != k) && (forall|e: int|
            0 <= e < sorted.len() ==> (#[trigger] sorted[e]).pos.0 != k) ==> (#[trigger] cur[
        k]).state == ChunkState::Rendered
}

/// Whether a prefix of the change list deletes the given position.
#[verifier::opaque]
pub open spec fn delete_before(
    changes: Seq<(ChunkPos, NeededStateChange)>,
    n: int,
    k: IVec3,
) -> bool {
    exists|j: int|
        0 <= j < n && (#[trigger] changes[j]) == (ChunkPos(k), NeededStateChange::Delete)
}

/// Whether the change list deletes the given position anywhere.
#[verifier::opaque]
pub open spec fn has_delete_for(changes: Seq<(ChunkPos, NeededStateChange)>, k: IVec3) -> bool {
    delete_before(changes, changes.len() as int, k)
}

/// A position the whole change list never deletes is not deleted by any
/// prefix of it either.
pub proof fn lemma_no_delete_prefix(
    changes: Seq<(ChunkPos, NeededStateChange)>,
    n: int,
    k: IVec3,
)
    requires
        !has_delete_for(changes, k),
        0 <= n <= changes.len(),
    ensures
        !delete_before(changes, n, k),
{
    reveal(has_delete_for);
    reveal(delete_before);
}

/// A delete at an index marks its position as deleted from then on.
pub proof fn lemma_delete_at(
    changes: Seq<(ChunkPos, NeededStateChange)>,
    j: int,
    n: int,
    k: IVec3,
)
    requires
        0 <= j < n <= changes.len(),
        changes[j] == (ChunkPos(k), NeededStateChange::Delete),
    ensures
        delete_before(changes, n, k),
        has_delete_for(changes, k),
{
    reveal(has_delete_for);
    reveal(delete_before);
}

/// A delete seen by a prefix is seen by every longer prefix.
pub proof fn lemma_delete_mono(
    changes: Seq<(ChunkPos, NeededStateChange)>,
    m: int,
    n: int,
    k: IVec3,
)
    requires
        0 <= m <= n,
        delete_before(changes, m, k),
    ensures
        delete_before(changes, n, k),
{
    reveal(delete_before);
}

/// A prefix that does not delete a position still does not delete it one
/// non-deleting step later.
pub proof fn lemma_delete_step(
    changes: Seq<(ChunkPos, NeededStateChange)>,
    j: int,
    k: IVec3,
)
    requires
        0 <= j < changes.len(),
        !delete_before(changes, j, k),
        !(changes[j] == (ChunkPos(k), NeededStateChange::Delete)),
    ensures
        !delete_before(changes, j + 1, k),
{
    reveal(delete_before);
}

/// A generation order for a position, carrying exactly the column noise
/// the cache held for its column (or nothing when the column is uncached).
#[verifier::opaque]
pub open spec fn generate_order_for(
    order: ChunkWork,
    hm: Map<IVec3, Chunk2dNoiseValues>,
    p: ChunkPos,
) -> bool {
    order matches ChunkWork::Generate { pos, cached_noise } && pos == p && {
        let key = IVec3 { x: p.0.x, y: 0, z: p.0.z };
        match cached_noise {
            None => !hm.contains_key(key),
            Some(n) => hm.contains_key(key) && n.chunk_pos_x == hm[key].chunk_pos_x
                && n.chunk_pos_z == hm[key].chunk_pos_z && n.heightmap@ == hm[key].heightmap@,
        }
    }
}

/// A render order for a position, carrying that chunk's voxel data and
/// the boundary planes its six generated neighbors publish toward it.
#[verifier::opaque]
pub open spec fn render_order_for(
    order: ChunkWork,
    chunks: Map<IVec3, LoadedChunk>,
    p: ChunkPos,
) -> bool {
    order matches ChunkWork::Render { pos, chunk, neighbors } && pos == p && {
        &&& chunks.contains_key(p.0)
        &&& chunks[p.0].chunk is Some
        &&& chunk.voxels@ == chunks[p.0].chunk.unwrap().voxels@
        &&& neighbors.wf()
        &&& forall|a: crate::axis::VoxelAxis|
            chunks.contains_key(#[trigger] axis_offset(p.0, a)) && chunks[axis_offset(
                p.0,
                a,
            )].chunk is Some && neighbors.plane(a) == chunks[axis_offset(
                p.0,
                a,
            )].chunk.unwrap().edge_slice_bits.plane(a.negate_spec())
    }
}

/// The magnitude of a small signed offset.
fn abs_i32(v: i32) -> (r: i32)
    requires
        -1000000 <= v <= 1000000,
    ensures
        r == abs1(v as int),
{
    if v < 0 {
        -v
    } else {
        v
    }
}

/// Whether a position lies within the cubic radius around the loader.
fn cube_contains(k: IVec3, loader: ChunkPos, r: i32) -> (b: bool)
    requires
        0 <= r,
    ensures
        b == in_cube(k, loader, r as int),
{
    let dx = k.x as i64 - loader.0.x as i64;
    let dy = k.y as i64 - loader.0.y as i64;
    let dz = k.z as i64 - loader.0.z as i64;
    let adx = if dx < 0 {
        -dx
    } else {
        dx
    };
    let ady = if dy < 0 {
        -dy
    } else {
        dy
    };
    let adz = if dz < 0 {
        -dz
    } else {
        dz
    };
    adx <= r as i64 && ady <= r as i64 && adz <= r as i64
}

/// The authoritative map of tracked chunks, plus the per-column noise
/// cache reused by every chunk of a vertical column.
pub struct FixedChunkWorld {
    pub chunks: PosMap<LoadedChunk>,
    pub heightmaps: PosMap<Chunk2dNoiseValues>,
}

impl FixedChunkWorld {
    pub open spec fn wf(self) -> bool {
        &&& self.chunks.wf()
        &&& forall|k: IVec3|
            self.chunks@.contains_key(k) ==> (#[trigger] self.chunks@[k]).wf()
                && self.chunks@[k].pos == k
        &&& self.heightmaps.wf()
        &&& forall|k: IVec3|
            self.heightmaps@.contains_key(k) ==> (#[trigger] self.heightmaps@[k]).wf()
    }

    pub fn new() -> (r: Self)
        ensures
            r.wf(),
            r.chunks@ == Map::<IVec3, LoadedChunk>::empty(),
    {
        FixedChunkWorld { chunks: PosMap::new(), heightmaps: PosMap::new() }
    }

    /// Updates the needed states for a loader at `loader_chunk` with the
    /// given radius: every position in the cube of that radius is
    /// tracked, the outer shell needing only `Generated` (it exists for
    /// neighbor culling), the interior needing `Rendered`; every tracked
    /// position outside the cube is marked not needed. Current states
    /// are untouched.
    pub fn update_needed_chunk_states(&mut self, loader_chunk: ChunkPos, radius: usize)
        requires
            old(self).wf(),
            radius <= 1000000,
            loader_in_range(loader_chunk),
        ensures
            final(self).wf(),
            forall|k: IVec3|
                in_cube(k, loader_chunk, radius as int) ==> final(self).chunks@.contains_key(k)
                    && (#[trigger] final(self).chunks@[k]).needed_state == shell_needed(
                    k,
                    loader_chunk,
                    radius as int,
                ),
            forall|k: IVec3|
                !in_cube(k, loader_chunk, radius as int) ==> (final(self).chunks@.contains_key(k)
                    == old(self).chunks@.contains_key(k) && (final(self).chunks@.contains_key(k)
                    ==> (#[trigger] final(self).chunks@[k]).needed_state
                    == NeededChunkState::DontNeed)),
            forall|k: IVec3|
                old(self).chunks@.contains_key(k) ==> final(self).chunks@.contains_key(k) && (
                #[trigger] final(self).chunks@[k]).state == old(self).chunks@[k].state && final(self).chunks@[k].chunk == old(self).chunks@[k].chunk,
            forall|k: IVec3|
                final(self).chunks@.contains_key(k) && !old(self).chunks@.contains_key(k) ==> (
                #[trigger] final(self).chunks@[k]).state == ChunkState::Empty && final(self).chunks@[k].chunk is None,
            states_advance(old(self).chunks@, final(self).chunks@),
    {
        let ghost pre = self.chunks@;
        let r = radius as i32;

        // Mark every tracked position outside the cube as not needed.
        let mut out_keys: Vec<IVec3> = Vec::new();
        let mut i: usize = 0;
        while i < self.chunks.entries.len()
            invariant
                self.wf(),
                loader_in_range(loader_chunk),
                radius <= 1000000,
                r == radius as i32,
                i <= self.chunks.entries@.len(),
                forall|j: int|
                    0 <= j < out_keys@.len() ==> !in_cube(
                        #[trigger] out_keys@[j],
                        loader_chunk,
                        radius as int,
                    ) && self.chunks@.contains_key(out_keys@[j]),
                forall|i0: int|
                    0 <= i0 < i && !in_cube(
                        (#[trigger] self.chunks.entries@[i0]).0,
                        loader_chunk,
                        radius as int,
                    ) ==> out_keys@.contains(self.chunks.entries@[i0].0),
            decreases self.chunks.entries@.len() - i,
        {
            let k = self.chunks.entries[i].0;
            proof {
                crate::posmap::lemma_entries_map_char(self.chunks.entries@);
                assert(self.chunks@.contains_key(k));
            }
            if !cube_contains(k, loader_chunk, r) {
                let ghost prev_keys = out_keys@;
                out_keys.push(k);
                proof {
                    assert forall|j: int| 0 <= j < out_keys@.len() implies !in_cube(
                        #[trigger] out_keys@[j],
                        loader_chunk,
                        radius as int,
                    ) && self.chunks@.contains_key(out_keys@[j]) by {
                        if j < prev_keys.len() {
                            assert(out_keys@[j] == prev_keys[j]);
                        } else {
                            assert(out_keys@[j] == k);
                        }
                    }
                    assert forall|i0: int|
                        0 <= i0 < i + 1 && !in_cube(
                            (#[trigger] self.chunks.entries@[i0]).0,
                            loader_chunk,
                            radius as int,
                        ) implies out_keys@.contains(self.chunks.entries@[i0].0) by {
                        if i0 < i {
                            let j = choose|j: int|
                                0 <= j < prev_keys.len() && prev_keys[j]
                                    == self.chunks.entries@[i0].0;
                            assert(out_keys@[j] == self.chunks.entries@[i0].0);
                        } else {
                            assert(out_keys@[prev_keys.len() as int] == k);
                        }
                    }
                }
            }
            i += 1;
        }

        let mut j: usize = 0;
        while j < out_keys.len()
            invariant
                self.wf(),
                loader_in_range(loader_chunk),
                radius <= 1000000,
                r == radius as i32,
                j <= out_keys@.len(),
                forall|j0: int|
                    0 <= j0 < out_keys@.len() ==> !in_cube(
                        #[trigger] out_keys@[j0],
                        loader_chunk,
                        radius as int,
                    ) && pre.contains_key(out_keys@[j0]),
                forall|k: IVec3| #[trigger]
                    self.chunks@.contains_key(k) == pre.contains_key(k),
                forall|k: IVec3|
                    self.chunks@.contains_key(k) ==> (#[trigger] self.chunks@[k]).state == pre[
                    k].state && self.chunks@[k].chunk == pre[k].chunk && self.chunks@[k].pos
                        == pre[k].pos,
                forall|j0: int|
                    0 <= j0 < j ==> self.chunks@[#[trigger] out_keys@[j0]].needed_state
                        == NeededChunkState::DontNeed,
                forall|k: IVec3|
                    self.chunks@.contains_key(k) && !out_keys@.contains(k) ==> (
                    #[trigger] self.chunks@[k]).needed_state == pre[k].needed_state,
                self.heightmaps@ == old(self).heightmaps@,
            decreases out_keys@.len() - j,
        {
            let k = out_keys[j];
            self.set_needed(ChunkPos(k), NeededChunkState::DontNeed);
            proof {
                assert(out_keys@.contains(out_keys@[j as int]));
            }
            j += 1;
        }

        proof {
            assert forall|k: IVec3|
                pre.contains_key(k) && !in_cube(k, loader_chunk, radius as int) implies
                out_keys@.contains(k) by {
                crate::posmap::lemma_entries_map_char(old(self).chunks.entries@);
                let i0 = choose|i0: int|
                    0 <= i0 < old(self).chunks.entries@.len() && (#[trigger] old(self).chunks.entries@[i0]).0 == k;
                assert(out_keys@.contains(old(self).chunks.entries@[i0].0));
            }
            assert forall|k: IVec3|
                !in_cube(k, loader_chunk, radius as int) && self.chunks@.contains_key(
                    k,
                ) implies (#[trigger] self.chunks@[k]).needed_state
                == NeededChunkState::DontNeed by {
                let j0 = choose|j0: int|
                    0 <= j0 < out_keys@.len() && out_keys@[j0] == k;
            }
            assert(cube_frame(pre, self.chunks@, loader_chunk, radius as int));
        }

        // Every position in the cube needs the shell rule's state.
        let mut ox: i32 = -r;
        while ox <= r
            invariant
                self.wf(),
                loader_in_range(loader_chunk),
                radius <= 1000000,
                r == radius as i32,
                -r <= ox <= r + 1,
                cube_frame(pre, self.chunks@, loader_chunk, radius as int),
                forall|k: IVec3|
                    in_cube(k, loader_chunk, radius as int) && k.x - loader_chunk.0.x < ox
                        ==> self.chunks@.contains_key(k) && (
                    #[trigger] self.chunks@[k]).needed_state == shell_needed(
                        k,
                        loader_chunk,
                        radius as int,
                    ),
                self.heightmaps@ == old(self).heightmaps@,
            decreases r + 1 - ox,
        {
            let mut oy: i32 = -r;
            while oy <= r
                invariant
                    self.wf(),
                    loader_in_range(loader_chunk),
                    radius <= 1000000,
                    r == radius as i32,
                    -r <= ox <= r,
                    -r <= oy <= r + 1,
                    cube_frame(pre, self.chunks@, loader_chunk, radius as int),
                    forall|k: IVec3|
                        in_cube(k, loader_chunk, radius as int) && k.x - loader_chunk.0.x < ox
                            ==> self.chunks@.contains_key(k) && (
                        #[trigger] self.chunks@[k]).needed_state == shell_needed(
                            k,
                            loader_chunk,
                            radius as int,
                        ),
                    forall|k: IVec3|
                        in_cube(k, loader_chunk, radius as int) && k.x - loader_chunk.0.x == ox
                            && k.y - loader_chunk.0.y < oy ==> self.chunks@.contains_key(k) && (
                        #[trigger] self.chunks@[k]).needed_state == shell_needed(
                            k,
                            loader_chunk,
                            radius as int,
                        ),
                    self.heightmaps@ == old(self).heightmaps@,
                decreases r + 1 - oy,
            {
                let mut oz: i32 = -r;
                while oz <= r
                    invariant
                        self.wf(),
                        loader_in_range(loader_chunk),
                        radius <= 1000000,
                        r == radius as i32,
                        -r <= ox <= r,
                        -r <= oy <= r,
                        -r <= oz <= r + 1,
                        cube_frame(pre, self.chunks@, loader_chunk, radius as int),
                        forall|k: IVec3|
                            in_cube(k, loader_chunk, radius as int) && k.x - loader_chunk.0.x < ox
                                ==> self.chunks@.contains_key(k) && (
                            #[trigger] self.chunks@[k]).needed_state == shell_needed(
                                k,
                                loader_chunk,
                                radius as int,
                            ),
                        forall|k: IVec3|
                            in_cube(k, loader_chunk, radius as int) && k.x - loader_chunk.0.x == ox
                                && k.y - loader_chunk.0.y < oy ==> self.chunks@.contains_key(k)
                                && (#[trigger] self.chunks@[k]).needed_state == shell_needed(
                                k,
                                loader_chunk,
                                radius as int,
                            ),
                        forall|k: IVec3|
                            in_cube(k, loader_chunk, radius as int) && k.x - loader_chunk.0.x == ox
                                && k.y - loader_chunk.0.y == oy && k.z - loader_chunk.0.z < oz
                                ==> self.chunks@.contains_key(k) && (
                            #[trigger] self.chunks@[k]).needed_state == shell_needed(
                                k,
                                loader_chunk,
                                radius as int,
                            ),
                        self.heightmaps@ == old(self).heightmaps@,
                    decreases r + 1 - oz,
                {
                    let needed = if abs_i32(ox) == r || abs_i32(oy) == r || abs_i32(oz) == r {
                        NeededChunkState::Generated
                    } else {
                        NeededChunkState::Rendered
                    };
                    let target = IVec3 {
                        x: loader_chunk.0.x + ox,
                        y: loader_chunk.0.y + oy,
                        z: loader_chunk.0.z + oz,
                    };
                    proof {
                        assert(in_cube(target, loader_chunk, radius as int));
                        assert(needed == shell_needed(target, loader_chunk, radius as int));
                    }
                    self.set_needed(ChunkPos(target), needed);
                    oz += 1;
                }
                oy += 1;
            }
            ox += 1;
        }
    }

    /// Diffs current against needed state for every tracked chunk: what
    /// must be generated, rendered, or deleted, closest to the loader
    /// first. Positions outside the radius always yield `Delete`.
    pub fn required_state_changes(&self, loader_chunk: ChunkPos, radius: usize) -> (r: Vec<
        (ChunkPos, NeededStateChange),
    >)
        requires
            self.wf(),
            radius <= 1000000,
        ensures
            forall|j: int|
                0 <= j < r@.len() ==> {
                    &&& self.chunks@.contains_key((#[trigger] r@[j]).0.0)
                    &&& needed_change(
                        self.chunks@[r@[j].0.0],
                        r@[j].0,
                        loader_chunk,
                        radius as int,
                    ) == Some(r@[j].1)
                },
            forall|k: IVec3| #[trigger]
                self.chunks@.contains_key(k) && needed_change(
                    self.chunks@[k],
                    ChunkPos(k),
                    loader_chunk,
                    radius as int,
                ) is Some ==> r@.contains(
                    (
                        ChunkPos(k),
                        needed_change(
                            self.chunks@[k],
                            ChunkPos(k),
                            loader_chunk,
                            radius as int,
                        ).unwrap(),
                    ),
                ),
            forall|i: int, j: int|
                0 <= i < j < r@.len() ==> crate::ivec::dist_sq((#[trigger] r@[i]).0.0, loader_chunk.0)
                    <= crate::ivec::dist_sq((#[trigger] r@[j]).0.0, loader_chunk.0),
            forall|i: int, j: int|
                0 <= i < j < r@.len() ==> (#[trigger] r@[i]).0 != (#[trigger] r@[j]).0,
    {
        broadcast use vstd::seq_lib::group_to_multiset_ensures;

        let mut changes: Vec<(ChunkPos, NeededStateChange)> = Vec::new();
        let mut i: usize = 0;
        proof {
            crate::posmap::lemma_entries_map_char(self.chunks.entries@);
        }
        while i < self.chunks.entries.len()
            invariant
                self.wf(),
                radius <= 1000000,
                i <= self.chunks.entries@.len(),
                forall|j: int|
                    0 <= j < changes@.len() ==> {
                        &&& self.chunks@.contains_key((#[trigger] changes@[j]).0.0)
                        &&& needed_change(
                            self.chunks@[changes@[j].0.0],
                            changes@[j].0,
                            loader_chunk,
                            radius as int,
                        ) == Some(changes@[j].1)
                    },
                forall|i0: int|
                    0 <= i0 < i && needed_change(
                        self.chunks@[(#[trigger] self.chunks.entries@[i0]).0],
                        ChunkPos(self.chunks.entries@[i0].0),
                        loader_chunk,
                        radius as int,
                    ) is Some ==> changes@.contains(
                        (
                            ChunkPos(self.chunks.entries@[i0].0),
                            needed_change(
                                self.chunks@[self.chunks.entries@[i0].0],
                                ChunkPos(self.chunks.entries@[i0].0),
                                loader_chunk,
                                radius as int,
                            ).unwrap(),
                        ),
                    ),
                change_positions_distinct(changes@),
                forall|j: int|
                    0 <= j < changes@.len() ==> exists|i0: int|
                        0 <= i0 < i && (#[trigger] changes@[j]).0.0 == self.chunks.entries@[
                        i0].0,
            decreases self.chunks.entries@.len() - i,
        {
            let (k, lc) = &self.chunks.entries[i];
            proof {
                crate::posmap::lemma_entries_map_char(self.chunks.entries@);
            }
            let ghost prev_changes = changes@;
            let change: Option<NeededStateChange> = if !cube_contains(
                *k,
                loader_chunk,
                radius as i32,
            ) {
                Some(NeededStateChange::Delete)
            } else {
                match lc.needed_state {
                    NeededChunkState::DontNeed => Some(NeededStateChange::Delete),
                    NeededChunkState::Generated => match lc.state {
                        ChunkState::Empty => Some(NeededStateChange::Generate),
                        _ => None,
                    },
                    NeededChunkState::Rendered => match lc.state {
                        ChunkState::Empty => Some(NeededStateChange::Generate),
                        ChunkState::Generated => Some(NeededStateChange::Render),
                        _ => None,
                    },
                }
            };
            if let Some(change) = change {
                changes.push((ChunkPos(*k), change));
                proof {
                    assert(changes@[prev_changes.len() as int] == (ChunkPos(*k), change));
                    assert(changes@.contains((ChunkPos(*k), change)));
                    assert forall|j: int| 0 <= j < prev_changes.len() implies changes@.contains(
                        #[trigger] prev_changes[j],
                    ) by {
                        assert(changes@[j] == prev_changes[j]);
                    }
                    assert(self.chunks.entries@[i as int].0 == *k);
                    assert forall|j: int|
                        0 <= j < changes@.len() implies exists|i0: int|
                        0 <= i0 < i + 1 && (#[trigger] changes@[j]).0.0
                            == self.chunks.entries@[i0].0 by {
                        if j < prev_changes.len() {
                            let i0 = choose|i0: int|
                                0 <= i0 < i && prev_changes[j].0.0 == self.chunks.entries@[
                                i0].0;
                            assert(changes@[j] == prev_changes[j]);
                            assert(0 <= i0 < i + 1 && changes@[j].0.0
                                == self.chunks.entries@[i0].0);
                        } else {
                            assert(changes@[j].0.0 == self.chunks.entries@[i as int].0);
                        }
                    }
                    assert forall|a: int, b: int|
                        0 <= a < b < changes@.len() implies (#[trigger] changes@[a]).0 != (
                    #[trigger] changes@[b]).0 by {
                        if b == prev_changes.len() {
                            assert(changes@[a] == prev_changes[a]);
                            let i0 = choose|i0: int|
                                0 <= i0 < i && prev_changes[a].0.0 == self.chunks.entries@[
                                i0].0;
                            assert(self.chunks.entries@[i0].0 != self.chunks.entries@[
                            i as int].0);
                        } else {
                            assert(changes@[a] == prev_changes[a]);
                            assert(changes@[b] == prev_changes[b]);
                        }
                    }
                }
            }
            i += 1;
        }

        let ghost unsorted = changes@;
        let sorted = sort_changes_by_distance(loader_chunk, changes);
        proof {
            broadcast use vstd::seq_lib::group_to_multiset_ensures;

            assert forall|j: int| 0 <= j < sorted@.len() implies {
                &&& self.chunks@.contains_key((#[trigger] sorted@[j]).0.0)
                &&& needed_change(
                    self.chunks@[sorted@[j].0.0],
                    sorted@[j].0,
                    loader_chunk,
                    radius as int,
                ) == Some(sorted@[j].1)
            } by {
                assert(sorted@.contains(sorted@[j]));
                assert(sorted@.to_multiset().count(sorted@[j]) > 0);
                assert(unsorted.to_multiset().count(sorted@[j]) > 0);
                assert(unsorted.contains(sorted@[j]));
                let i0 = choose|i0: int|
                    0 <= i0 < unsorted.len() && unsorted[i0] == sorted@[j];
            }
            assert forall|k: IVec3| #[trigger]
                self.chunks@.contains_key(k) && needed_change(
                    self.chunks@[k],
                    ChunkPos(k),
                    loader_chunk,
                    radius as int,
                ) is Some implies sorted@.contains(
                (
                    ChunkPos(k),
                    needed_change(
                        self.chunks@[k],
                        ChunkPos(k),
                        loader_chunk,
                        radius as int,
                    ).unwrap(),
                ),
            ) by {
                crate::posmap::lemma_entries_map_char(self.chunks.entries@);
                let i0 = choose|i0: int|
                    0 <= i0 < self.chunks.entries@.len() && (#[trigger] self.chunks.entries@[
                    i0]).0 == k;
                let pair = (
                    ChunkPos(k),
                    needed_change(
                        self.chunks@[k],
                        ChunkPos(k),
                        loader_chunk,
                        radius as int,
                    ).unwrap(),
                );
                assert(unsorted.contains(pair));
                assert(unsorted.to_multiset().count(pair) > 0);
                assert(sorted@.to_multiset().count(pair) > 0);
                assert(sorted@.contains(pair));
            }
        }
        sorted
    }

    /// Sets the needed state of one chunk, tracking it in the `Empty`
    /// state first if it was unknown. Current states are untouched.
    pub fn set_needed(&mut self, chunk: ChunkPos, needed_state: NeededChunkState)
        requires
            old(self).wf(),
        ensures
            final(self).wf(),
            final(self).heightmaps@ == old(self).heightmaps@,
            final(self).chunks@.contains_key(chunk.0),
            final(self).chunks@ =~= old(self).chunks@.insert(
                chunk.0,
                final(self).chunks@[chunk.0],
            ),
            final(self).chunks@[chunk.0].needed_state == needed_state,
            old(self).chunks@.contains_key(chunk.0) ==> {
                &&& final(self).chunks@[chunk.0].state == old(self).chunks@[chunk.0].state
                &&& final(self).chunks@[chunk.0].chunk == old(self).chunks@[chunk.0].chunk
                &&& final(self).chunks@[chunk.0].pos == old(self).chunks@[chunk.0].pos
            },
            !old(self).chunks@.contains_key(chunk.0) ==> {
                &&& final(self).chunks@[chunk.0].state == ChunkState::Empty
                &&& final(self).chunks@[chunk.0].chunk is None
            },
            states_advance(old(self).chunks@, final(self).chunks@),
    {
        match self.chunks.remove(chunk.0) {
            Some(existing) => {
                let updated = LoadedChunk { needed_state, ..existing };
                self.chunks.insert(chunk.0, updated);
                proof {
                    assert(self.chunks@ =~= old(self).chunks@.insert(
                        chunk.0,
                        self.chunks@[chunk.0],
                    ));
                }
            },
            None => {
                let fresh = LoadedChunk {
                    chunk: None,
                    state: ChunkState::Empty,
                    needed_state,
                    pos: chunk.0,
                };
                self.chunks.insert(chunk.0, fresh);
                proof {
                    assert(self.chunks@ =~= old(self).chunks@.insert(
                        chunk.0,
                        self.chunks@[chunk.0],
                    ));
                }
            },
        }
    }
}

impl FixedChunkWorld {
    /// The boundary plane a neighbor publishes toward this chunk, if the
    /// neighbor along `a` is generated.
    fn neighbor_plane(&self, chunk: ChunkPos, a: crate::axis::VoxelAxis) -> (r: Option<
        crate::bits::BitBuf,
    >)
        requires
            self.wf(),
            loader_in_range(chunk),
        ensures
            r matches Some(b) ==> {
                &&& self.chunks@.contains_key(axis_offset(chunk.0, a))
                &&& self.chunks@[axis_offset(chunk.0, a)].chunk is Some
                &&& crate::bits::bit_seq(b) == self.chunks@[axis_offset(
                    chunk.0,
                    a,
                )].chunk.unwrap().edge_slice_bits.plane(a.negate_spec())
            },
            r is None ==> !(self.chunks@.contains_key(axis_offset(chunk.0, a))
                && self.chunks@[axis_offset(chunk.0, a)].chunk is Some),
    {
        let u = a.to_ivec3();
        let np = IVec3 { x: chunk.0.x + u.x, y: chunk.0.y + u.y, z: chunk.0.z + u.z };
        proof {
            assert(np == axis_offset(chunk.0, a));
        }
        match self.chunks.get(np) {
            Some(lc) => match &lc.chunk {
                Some(ch) => Some(
                    crate::bits::bits_clone(ch.edge_slice_bits.get_in_direction(a.negate())),
                ),
                None => None,
            },
            None => None,
        }
    }

    /// Collects the six neighbors' boundary planes for cross-chunk face
    /// culling, or `None` while any neighbor is still ungenerated — the
    /// frequent, non-error condition that defers rendering a tick.
    pub fn neighbors(&self, chunk: ChunkPos) -> (r: Option<NeighborChunkSlices>)
        requires
            self.wf(),
            loader_in_range(chunk),
        ensures
            r matches Some(n) ==> {
                &&& n.wf()
                &&& neighbors_ready(*self, chunk)
                &&& forall|a: crate::axis::VoxelAxis| #[trigger] n.plane(a) == self.chunks@[
                axis_offset(chunk.0, a)].chunk.unwrap().edge_slice_bits.plane(a.negate_spec())
            },
            r is None ==> !neighbors_ready(*self, chunk),
    {
        proof {
            reveal(neighbors_ready);
        }
        let px = self.neighbor_plane(chunk, crate::axis::VoxelAxis::PosX);
        let py = self.neighbor_plane(chunk, crate::axis::VoxelAxis::PosY);
        let pz = self.neighbor_plane(chunk, crate::axis::VoxelAxis::PosZ);
        let nx = self.neighbor_plane(chunk, crate::axis::VoxelAxis::NegX);
        let ny = self.neighbor_plane(chunk, crate::axis::VoxelAxis::NegY);
        let nz = self.neighbor_plane(chunk, crate::axis::VoxelAxis::NegZ);
        match (px, py, pz, nx, ny, nz) {
            (Some(px), Some(py), Some(pz), Some(nx), Some(ny), Some(nz)) => {
                let n = NeighborChunkSlices {
                    pos_x: px,
                    pos_y: py,
                    pos_z: pz,
                    neg_x: nx,
                    neg_y: ny,
                    neg_z: nz,
                };
                proof {
                    assert forall|a: crate::axis::VoxelAxis| #[trigger]
                        n.plane(a) == self.chunks@[axis_offset(
                            chunk.0,
                            a,
                        )].chunk.unwrap().edge_slice_bits.plane(a.negate_spec()) by {
                        match a {
                            crate::axis::VoxelAxis::PosX => {},
                            crate::axis::VoxelAxis::PosY => {},
                            crate::axis::VoxelAxis::PosZ => {},
                            crate::axis::VoxelAxis::NegX => {},
                            crate::axis::VoxelAxis::NegY => {},
                            crate::axis::VoxelAxis::NegZ => {},
                        }
                    }
                    assert forall|a: crate::axis::VoxelAxis| (#[trigger] n.plane(a)).len()
                        == crate::CHUNK_SQUARE by {
                        let nk = axis_offset(chunk.0, a);
                        assert(self.chunks@[nk].wf());
                        assert(self.chunks@[nk].chunk.unwrap().wf());
                    }
                }
                Some(n)
            },
            _ => None,
        }
    }

    /// Dispatches one `Generate` transition: a tracked, empty chunk
    /// moves to `Generating` and a generation order carrying the cached
    /// column noise is appended; any other chunk is left untouched (an
    /// untracked one indicates a bug elsewhere and is skipped).
    fn dispatch_generate(&mut self, orders: &mut Vec<ChunkWork>, p: ChunkPos)
        requires
            old(self).wf(),
        ensures
            final(self).wf(),
            final(self).heightmaps@ == old(self).heightmaps@,
            forall|k: IVec3|
                k != p.0 ==> #[trigger] final(self).chunks@.contains_key(k) == old(self).chunks@.contains_key(k) && (final(self).chunks@.contains_key(k) ==> final(self).chunks@[k] == old(self).chunks@[k]),
            final(self).chunks@.contains_key(p.0) == old(self).chunks@.contains_key(p.0),
            old(self).chunks@.contains_key(p.0) ==> {
                &&& final(self).chunks@[p.0].needed_state == old(self).chunks@[p.0].needed_state
                &&& final(self).chunks@[p.0].chunk == old(self).chunks@[p.0].chunk
                &&& final(self).chunks@[p.0].pos == old(self).chunks@[p.0].pos
            },
            old(self).chunks@.contains_key(p.0) && old(self).chunks@[p.0].state
                == ChunkState::Empty ==> {
                &&& final(self).chunks@[p.0].state == ChunkState::Generating
                &&& final(orders)@ == old(orders)@.push(final(orders)@.last())
                &&& generate_order_for(final(orders)@.last(), old(self).heightmaps@, p)
            },
            !(old(self).chunks@.contains_key(p.0) && old(self).chunks@[p.0].state
                == ChunkState::Empty) ==> final(self).chunks@ == old(self).chunks@ && final(orders)@ == old(orders)@,
    {
        match self.chunks.remove(p.0) {
            Some(lc) => {
                if matches!(lc.state, ChunkState::Empty) {
                    let updated = LoadedChunk { state: ChunkState::Generating, ..lc };
                    self.chunks.insert(p.0, updated);
                    let cached_noise = match self.heightmaps.get(
                        IVec3 { x: p.0.x, y: 0, z: p.0.z },
                    ) {
                        Some(noise) => Some(noise.duplicate()),
                        None => None,
                    };
                    orders.push(ChunkWork::Generate { pos: p, cached_noise });
                    proof {
                        reveal(generate_order_for);
                        assert(generate_order_for(orders@.last(), old(self).heightmaps@, p));
                    }
                } else {
                    self.chunks.insert(p.0, lc);
                    proof {
                        assert(self.chunks@ =~= old(self).chunks@);
                    }
                }
            },
            None => {
                proof {
                    assert(self.chunks@ =~= old(self).chunks@);
                }
            },
        }
    }

    /// Dispatches one `Render` transition: a tracked, generated chunk
    /// whose six neighbors all hold generated data moves to `Rendering`,
    /// and a render order carrying a copy of its voxels and the
    /// neighbors' boundary planes is appended. Anything else — most
    /// often a neighbor still ungenerated — changes nothing; the pass is
    /// silently deferred, not an error.
    fn dispatch_render(&mut self, orders: &mut Vec<ChunkWork>, p: ChunkPos)
        requires
            old(self).wf(),
            loader_in_range(p),
        ensures
            final(self).wf(),
            final(self).heightmaps@ == old(self).heightmaps@,
            forall|k: IVec3|
                k != p.0 ==> #[trigger] final(self).chunks@.contains_key(k) == old(self).chunks@.contains_key(k) && (final(self).chunks@.contains_key(k) ==> final(self).chunks@[k] == old(self).chunks@[k]),
            final(self).chunks@.contains_key(p.0) == old(self).chunks@.contains_key(p.0),
            old(self).chunks@.contains_key(p.0) ==> {
                &&& final(self).chunks@[p.0].needed_state == old(self).chunks@[p.0].needed_state
                &&& final(self).chunks@[p.0].chunk == old(self).chunks@[p.0].chunk
                &&& final(self).chunks@[p.0].pos == old(self).chunks@[p.0].pos
            },
            old(self).chunks@.contains_key(p.0) && old(self).chunks@[p.0].state
                == ChunkState::Generated && neighbors_ready(*old(self), p) ==> {
                &&& final(self).chunks@[p.0].state == ChunkState::Rendering
                &&& final(orders)@ == old(orders)@.push(final(orders)@.last())
                &&& render_order_for(final(orders)@.last(), old(self).chunks@, p)
            },
            !(old(self).chunks@.contains_key(p.0) && old(self).chunks@[p.0].state
                == ChunkState::Generated && neighbors_ready(*old(self), p)) ==> final(self).chunks@ == old(self).chunks@ && final(orders)@ == old(orders)@,
    {
        let nbrs = self.neighbors(p);
        match nbrs {
            Some(nbrs) => {
                match self.chunks.remove(p.0) {
                    Some(lc) => {
                        if matches!(lc.state, ChunkState::Generated) {
                            match &lc.chunk {
                                Some(ch) => {
                                    let cloned = ch.duplicate();
                                    let updated = LoadedChunk {
                                        state: ChunkState::Rendering,
                                        ..lc
                                    };
                                    self.chunks.insert(p.0, updated);
                                    orders.push(
                                        ChunkWork::Render { pos: p, chunk: cloned, neighbors: nbrs },
                                    );
                                    proof {
                                        reveal(render_order_for);
                                        reveal(neighbors_ready);
                                        assert(render_order_for(
                                            orders@.last(),
                                            old(self).chunks@,
                                            p,
                                        ));
                                    }
                                },
                                None => {
                                    proof {
                                        assert(false);
                                    }
                                    self.chunks.insert(p.0, lc);
                                },
                            }
                        } else {
                            self.chunks.insert(p.0, lc);
                            proof {
                                assert(self.chunks@ =~= old(self).chunks@);
                            }
                        }
                    },
                    None => {
                        proof {
                            assert(self.chunks@ =~= old(self).chunks@);
                        }
                    },
                }
            },
            None => {
                // not all neighbors are generated yet
            },
        }
    }

    /// Dispatches one `Delete` transition: the chunk leaves the map, and
    /// generated voxel data is always flushed to the region store first.
    fn dispatch_delete(
        &mut self,
        region: &mut crate::region::RegionHandler,
        p: ChunkPos,
    )
        requires
            old(self).wf(),
            old(region).wf(),
        ensures
            final(self).wf(),
            final(region).wf(),
            final(self).heightmaps@ == old(self).heightmaps@,
            forall|k: IVec3|
                k != p.0 ==> #[trigger] final(self).chunks@.contains_key(k) == old(self).chunks@.contains_key(k) && (final(self).chunks@.contains_key(k) ==> final(self).chunks@[k] == old(self).chunks@[k]),
            !final(self).chunks@.contains_key(p.0),
            old(self).chunks@.contains_key(p.0) && old(self).chunks@[p.0].chunk is Some
                ==> final(region).spec_chunk(p) == Some(
                old(self).chunks@[p.0].chunk.unwrap().voxels@,
            ),
            forall|cp: ChunkPos|
                cp != p ==> #[trigger] final(region).spec_chunk(cp) == old(region).spec_chunk(
                    cp,
                ),
            !(old(self).chunks@.contains_key(p.0) && old(self).chunks@[p.0].chunk is Some)
                ==> *final(region) == *old(region),
    {
        match self.chunks.remove(p.0) {
            Some(lc) => {
                match lc.chunk {
                    Some(ch) => {
                        region.set_chunk(p, Some(ch.voxels));
                    },
                    None => {},
                }
            },
            None => {},
        }
    }

    pub fn execute_state_changes(
        &mut self,
        region: &mut crate::region::RegionHandler,
        changes: &Vec<(ChunkPos, NeededStateChange)>,
    ) -> (orders: Vec<ChunkWork>)
        requires
            old(self).wf(),
            old(region).wf(),
            forall|j: int| 0 <= j < changes@.len() ==> loader_in_range((#[trigger] changes@[j]).0),
        ensures
            final(self).wf(),
            final(region).wf(),
            states_advance(old(self).chunks@, final(self).chunks@),
            forall|k: IVec3| #[trigger]
                final(self).chunks@.contains_key(k) ==> old(self).chunks@.contains_key(k),
            forall|k: IVec3|
                final(self).chunks@.contains_key(k) ==> {
                    &&& (#[trigger] final(self).chunks@[k]).needed_state == old(self).chunks@[k].needed_state
                    &&& final(self).chunks@[k].chunk == old(self).chunks@[k].chunk
                    &&& final(self).chunks@[k].pos == old(self).chunks@[k].pos
                },
            forall|j: int|
                0 <= j < changes@.len() && (#[trigger] changes@[j]).1
                    == NeededStateChange::Delete ==> !final(self).chunks@.contains_key(
                    changes@[j].0.0,
                ),
            forall|j: int|
                0 <= j < changes@.len() && (#[trigger] changes@[j]).1 == NeededStateChange::Delete
                    && old(self).chunks@.contains_key(changes@[j].0.0) && old(self).chunks@[
                changes@[j].0.0].chunk is Some ==> final(region).spec_chunk(changes@[j].0)
                    == Some(old(self).chunks@[changes@[j].0.0].chunk.unwrap().voxels@),
            forall|cp: ChunkPos|
                (forall|j: int|
                    0 <= j < changes@.len() ==> !((#[trigger] changes@[j]).0 == cp && changes@[
                    j].1 == NeededStateChange::Delete)) ==> #[trigger] final(region).spec_chunk(
                    cp,
                ) == old(region).spec_chunk(cp),
            final(self).heightmaps@ == old(self).heightmaps@,
            // a Generate change for a tracked, empty chunk dispatches: the
            // chunk moves to Generating and a generation order carrying the
            // cached column noise comes back (unless the batch also deletes
            // the chunk)
            forall|j: int|
                0 <= j < changes@.len() && (#[trigger] changes@[j]).1
                    == NeededStateChange::Generate && old(self).chunks@.contains_key(
                    changes@[j].0.0,
                ) && old(self).chunks@[changes@[j].0.0].state == ChunkState::Empty
                    && !has_delete_for(changes@, changes@[j].0.0) ==> {
                    &&& final(self).chunks@.contains_key(changes@[j].0.0)
                    &&& final(self).chunks@[changes@[j].0.0].state == ChunkState::Generating
                    &&& exists|o: int|
                        0 <= o < orders@.len() && generate_order_for(
                            #[trigger] orders@[o],
                            old(self).heightmaps@,
                            changes@[j].0,
                        )
                },
            // a Render change for a tracked, generated chunk whose six
            // neighbors are generated dispatches: the chunk moves to
            // Rendering and a render order carrying its voxels and the
            // neighbors' planes comes back (unless the batch deletes the
            // chunk or a neighbor)
            forall|j: int|
                0 <= j < changes@.len() && (#[trigger] changes@[j]).1
                    == NeededStateChange::Render && old(self).chunks@.contains_key(
                    changes@[j].0.0,
                ) && old(self).chunks@[changes@[j].0.0].state == ChunkState::Generated
                    && neighbors_ready(*old(self), changes@[j].0) && !has_delete_for(
                    changes@,
                    changes@[j].0.0,
                ) && (forall|a: crate::axis::VoxelAxis|
                    !has_delete_for(changes@, #[trigger] axis_offset(changes@[j].0.0, a)))
                    ==> {
                    &&& final(self).chunks@.contains_key(changes@[j].0.0)
                    &&& final(self).chunks@[changes@[j].0.0].state == ChunkState::Rendering
                    &&& exists|o: int|
                        0 <= o < orders@.len() && render_order_for(
                            #[trigger] orders@[o],
                            old(self).chunks@,
                            changes@[j].0,
                        )
                },
            // no order is invented: every returned order answers a matching
            // change against the entry state and carries the right payload
            forall|o: int|
                0 <= o < orders@.len() ==> {
                    &&& ((#[trigger] orders@[o]) matches ChunkWork::Generate { pos, .. } ==> {
                        &&& exists|j: int|
                            0 <= j < changes@.len() && (#[trigger] changes@[j]) == (
                            pos,
                            NeededStateChange::Generate,
                            )
                        &&& old(self).chunks@.contains_key(pos.0)
                        &&& old(self).chunks@[pos.0].state == ChunkState::Empty
                        &&& generate_order_for(orders@[o], old(self).heightmaps@, pos)
                    })
                    &&& (orders@[o] matches ChunkWork::Render { pos, .. } ==> {
                        &&& exists|j: int|
                            0 <= j < changes@.len() && (#[trigger] changes@[j]) == (
                            pos,
                            NeededStateChange::Render,
                            )
                        &&& old(self).chunks@.contains_key(pos.0)
                        &&& old(self).chunks@[pos.0].state == ChunkState::Generated
                        &&& render_order_for(orders@[o], old(self).chunks@, pos)
                    })
                },
            // a tracked chunk the batch never deletes stays tracked
            forall|k: IVec3|
                old(self).chunks@.contains_key(k) && !has_delete_for(changes@, k)
                    ==> #[trigger] final(self).chunks@.contains_key(k),
            // a state only moves when a matching order went out
            forall|k: IVec3|
                final(self).chunks@.contains_key(k) && (#[trigger] final(self).chunks@[k]).state
                    != old(self).chunks@[k].state ==> (final(self).chunks@[k].state
                    == ChunkState::Generating && old(self).chunks@[k].state == ChunkState::Empty
                    && (exists|o: int|
                    0 <= o < orders@.len() && generate_order_for(
                        #[trigger] orders@[o],
                        old(self).heightmaps@,
                        ChunkPos(k),
                    ))) || (final(self).chunks@[k].state == ChunkState::Rendering && old(self).chunks@[k].state == ChunkState::Generated && (exists|o: int|
                    0 <= o < orders@.len() && render_order_for(
                        #[trigger] orders@[o],
                        old(self).chunks@,
                        ChunkPos(k),
                    ))),
    {
        let ghost pre_chunks = old(self).chunks@;
        let ghost pre_region = *old(region);
        let mut orders: Vec<ChunkWork> = Vec::new();

        let mut j: usize = 0;
        while j < changes.len()
            invariant
                self.wf(),
                region.wf(),
                pre_chunks == old(self).chunks@,
                pre_region == *old(region),
                forall|j0: int|
                    0 <= j0 < changes@.len() ==> loader_in_range((#[trigger] changes@[j0]).0),
                j <= changes@.len(),
                states_advance(pre_chunks, self.chunks@),
                forall|k: IVec3| #[trigger]
                    self.chunks@.contains_key(k) ==> pre_chunks.contains_key(k),
                forall|k: IVec3|
                    self.chunks@.contains_key(k) ==> {
                        &&& (#[trigger] self.chunks@[k]).needed_state == pre_chunks[
                        k].needed_state
                        &&& self.chunks@[k].chunk == pre_chunks[k].chunk
                        &&& self.chunks@[k].pos == pre_chunks[k].pos
                    },
                forall|j0: int|
                    0 <= j0 < j && (#[trigger] changes@[j0]).1 == NeededStateChange::Delete
                        ==> !self.chunks@.contains_key(changes@[j0].0.0),
                forall|k: IVec3|
                    pre_chunks.contains_key(k) && !delete_before(changes@, j as int, k)
                        ==> #[trigger] self.chunks@.contains_key(k),
                forall|k: IVec3|
                    self.chunks@.contains_key(k) ==> ((#[trigger] self.chunks@[k]).state
                        == pre_chunks[k].state || (self.chunks@[k].state == ChunkState::Generating
                        && pre_chunks[k].state == ChunkState::Empty) || (self.chunks@[k].state
                        == ChunkState::Rendering && pre_chunks[k].state
                        == ChunkState::Generated)),
                // a transition taken is a transition ordered
                forall|k: IVec3|
                    self.chunks@.contains_key(k) && (#[trigger] self.chunks@[k]).state
                        == ChunkState::Generating && pre_chunks[k].state == ChunkState::Empty
                        ==> exists|o: int|
                        0 <= o < orders@.len() && generate_order_for(
                            #[trigger] orders@[o],
                            old(self).heightmaps@,
                            ChunkPos(k),
                        ),
                forall|k: IVec3|
                    self.chunks@.contains_key(k) && (#[trigger] self.chunks@[k]).state
                        == ChunkState::Rendering && pre_chunks[k].state == ChunkState::Generated
                        ==> exists|o: int|
                        0 <= o < orders@.len() && render_order_for(
                            #[trigger] orders@[o],
                            pre_chunks,
                            ChunkPos(k),
                        ),
                forall|j0: int|
                    0 <= j0 < j && (#[trigger] changes@[j0]).1 == NeededStateChange::Generate
                        && pre_chunks.contains_key(changes@[j0].0.0) && pre_chunks[
                    changes@[j0].0.0].state == ChunkState::Empty && !has_delete_for(
                        changes@,
                        changes@[j0].0.0,
                    ) ==> self.chunks@.contains_key(changes@[j0].0.0) && self.chunks@[
                    changes@[j0].0.0].state == ChunkState::Generating,
                forall|j0: int|
                    0 <= j0 < j && (#[trigger] changes@[j0]).1 == NeededStateChange::Render
                        && pre_chunks.contains_key(changes@[j0].0.0) && pre_chunks[
                    changes@[j0].0.0].state == ChunkState::Generated && neighbors_ready(
                        *old(self),
                        changes@[j0].0,
                    ) && !has_delete_for(changes@, changes@[j0].0.0) && (forall|
                        a: crate::axis::VoxelAxis,
                    |
                        !has_delete_for(
                            changes@,
                            #[trigger] axis_offset(changes@[j0].0.0, a),
                        )) ==> self.chunks@.contains_key(changes@[j0].0.0) && self.chunks@[
                    changes@[j0].0.0].state == ChunkState::Rendering,
                forall|o: int|
                    0 <= o < orders@.len() ==> {
                        &&& ((#[trigger] orders@[o]) matches ChunkWork::Generate { pos, .. }
                            ==> {
                            &&& exists|j0: int|
                                0 <= j0 < j && (#[trigger] changes@[j0]) == (
                                pos,
                                NeededStateChange::Generate,
                                )
                            &&& pre_chunks.contains_key(pos.0)
                            &&& pre_chunks[pos.0].state == ChunkState::Empty
                            &&& generate_order_for(orders@[o], old(self).heightmaps@, pos)
                        })
                        &&& (orders@[o] matches ChunkWork::Render { pos, .. } ==> {
                            &&& exists|j0: int|
                                0 <= j0 < j && (#[trigger] changes@[j0]) == (
                                pos,
                                NeededStateChange::Render,
                                )
                            &&& pre_chunks.contains_key(pos.0)
                            &&& pre_chunks[pos.0].state == ChunkState::Generated
                            &&& render_order_for(orders@[o], pre_chunks, pos)
                        })
                    },
                forall|k: IVec3|
                    pre_chunks.contains_key(k) && !self.chunks@.contains_key(k) && (
                    #[trigger] pre_chunks[k]).chunk is Some ==> region.spec_chunk(ChunkPos(k))
                        == Some(pre_chunks[k].chunk.unwrap().voxels@),
                forall|cp: ChunkPos|
                    !delete_before(changes@, j as int, cp.0) ==> #[trigger] region.spec_chunk(
                        cp,
                    ) == pre_region.spec_chunk(cp),
                self.heightmaps@ == old(self).heightmaps@,
            decreases changes@.len() - j,
        {
            let (p, change) = changes[j];
            let ghost before_self = *self;
            let ghost before_orders = orders@;
            match change {
                NeededStateChange::Generate => {
                    proof {
                        if pre_chunks.contains_key(p.0) && !has_delete_for(changes@, p.0) {
                            lemma_no_delete_prefix(changes@, j as int, p.0);
                            assert(before_self.chunks@.contains_key(p.0));
                            if pre_chunks[p.0].state == ChunkState::Empty {
                                assert(before_self.chunks@[p.0].state == ChunkState::Empty
                                    || before_self.chunks@[p.0].state
                                    == ChunkState::Generating);
                            }
                        }
                    }
                    self.dispatch_generate(&mut orders, p);
                    proof {
                        if before_self.chunks@.contains_key(p.0) && before_self.chunks@[
                        p.0].state == ChunkState::Empty {
                            assert(pre_chunks.contains_key(p.0) && pre_chunks[p.0].state
                                == ChunkState::Empty);
                            assert(generate_order_for(
                                orders@.last(),
                                old(self).heightmaps@,
                                p,
                            ));
                            assert(orders@.last() matches ChunkWork::Generate { pos, .. }
                                && pos == p) by {
                                reveal(generate_order_for);
                            }
                            assert(changes@[j as int] == (p, NeededStateChange::Generate));
                            assert forall|o: int|
                                0 <= o < before_orders.len() implies orders@[o]
                                == before_orders[o] by {}
                        }
                        if pre_chunks.contains_key(p.0) && pre_chunks[p.0].state
                            == ChunkState::Empty && !has_delete_for(changes@, p.0) {
                            assert(self.chunks@.contains_key(p.0) && self.chunks@[p.0].state
                                == ChunkState::Generating);
                        }
                    }
                },
                NeededStateChange::Render => {
                    proof {
                        if pre_chunks.contains_key(p.0) && pre_chunks[p.0].state
                            == ChunkState::Generated && neighbors_ready(*old(self), p)
                            && !has_delete_for(changes@, p.0) && (forall|
                            a: crate::axis::VoxelAxis,
                        |
                            !has_delete_for(changes@, #[trigger] axis_offset(p.0, a))) {
                            reveal(neighbors_ready);
                            lemma_no_delete_prefix(changes@, j as int, p.0);
                            assert(before_self.chunks@.contains_key(p.0));
                            assert forall|a: crate::axis::VoxelAxis|
                                before_self.chunks@.contains_key(#[trigger] axis_offset(p.0, a))
                                    && before_self.chunks@[axis_offset(p.0, a)].chunk
                                    is Some by {
                                assert(!has_delete_for(changes@, axis_offset(p.0, a)));
                                lemma_no_delete_prefix(changes@, j as int, axis_offset(p.0, a));
                                assert(pre_chunks.contains_key(axis_offset(p.0, a)));
                                assert(before_self.chunks@[axis_offset(p.0, a)].chunk
                                    == pre_chunks[axis_offset(p.0, a)].chunk);
                            }
                            assert(neighbors_ready(before_self, p));
                            assert(before_self.chunks@[p.0].state == ChunkState::Generated
                                || before_self.chunks@[p.0].state == ChunkState::Rendering);
                        }
                    }
                    self.dispatch_render(&mut orders, p);
                    proof {
                        if before_self.chunks@.contains_key(p.0) && before_self.chunks@[
                        p.0].state == ChunkState::Generated && neighbors_ready(before_self, p) {
                            assert(render_order_for(orders@.last(), before_self.chunks@, p));
                            assert(orders@.last() matches ChunkWork::Render { pos, .. } && pos
                                == p) by {
                                reveal(render_order_for);
                            }
                            assert(pre_chunks.contains_key(p.0) && pre_chunks[p.0].state
                                == ChunkState::Generated);
                            assert(changes@[j as int] == (p, NeededStateChange::Render));
                            assert(render_order_for(orders@.last(), pre_chunks, p)) by {
                                reveal(render_order_for);
                                assert forall|a: crate::axis::VoxelAxis|
                                    pre_chunks.contains_key(#[trigger] axis_offset(p.0, a))
                                        && pre_chunks[axis_offset(p.0, a)].chunk
                                        == before_self.chunks@[axis_offset(p.0, a)].chunk by {
                                    reveal(neighbors_ready);
                                    assert(before_self.chunks@.contains_key(axis_offset(p.0, a)));
                                }
                            }
                            assert forall|o: int|
                                0 <= o < before_orders.len() implies orders@[o]
                                == before_orders[o] by {}
                        }
                        if pre_chunks.contains_key(p.0) && pre_chunks[p.0].state
                            == ChunkState::Generated && neighbors_ready(*old(self), p)
                            && !has_delete_for(changes@, p.0) && (forall|
                            a: crate::axis::VoxelAxis,
                        |
                            !has_delete_for(changes@, #[trigger] axis_offset(p.0, a))) {
                            assert(self.chunks@.contains_key(p.0) && self.chunks@[p.0].state
                                == ChunkState::Rendering);
                        }
                    }
                },
                NeededStateChange::Delete => {
                    self.dispatch_delete(region, p);
                    proof {
                        assert(changes@[j as int] == (ChunkPos(p.0), NeededStateChange::Delete));
                        lemma_delete_at(changes@, j as int, j + 1, p.0);
                        lemma_delete_at(changes@, j as int, changes@.len() as int, p.0);
                    }
                },
            }
            proof {
                assert(changes@[j as int] == (p, change));
                // a chunk this change could not touch is exactly as before
                assert forall|k: IVec3|
                    pre_chunks.contains_key(k) && !delete_before(changes@, j + 1, k) implies
                    #[trigger] self.chunks@.contains_key(k) by {
                    assert(!delete_before(changes@, j as int, k)) by {
                        reveal(delete_before);
                    }
                    if k == p.0 && change == NeededStateChange::Delete {
                        lemma_delete_at(changes@, j as int, j + 1, k);
                    }
                }
                assert forall|cp: ChunkPos|
                    !delete_before(changes@, j + 1, cp.0) implies #[trigger] region.spec_chunk(
                    cp,
                ) == pre_region.spec_chunk(cp) by {
                    if delete_before(changes@, j as int, cp.0) {
                        lemma_delete_mono(changes@, j as int, j + 1, cp.0);
                    }
                    if cp == p && change == NeededStateChange::Delete {
                        lemma_delete_at(changes@, j as int, j + 1, cp.0);
                    }
                }
                // hypotheses naming positions this change deleted are void
                assert forall|k: IVec3|
                    change == NeededStateChange::Delete && k == p.0 implies has_delete_for(
                    changes@,
                    k,
                ) by {
                    lemma_delete_at(changes@, j as int, changes@.len() as int, k);
                }
                assert forall|j0: int|
                    0 <= j0 < j + 1 && (#[trigger] changes@[j0]).1 == NeededStateChange::Delete
                        implies !self.chunks@.contains_key(changes@[j0].0.0) by {}
                lemma_progress_step(
                    changes@,
                    pre_chunks,
                    *old(self),
                    before_self.chunks@,
                    self.chunks@,
                    j as int,
                    p,
                    change,
                );
            }
            j += 1;
        }
        proof {
            assert forall|cp: ChunkPos|
                (forall|j0: int|
                    0 <= j0 < changes@.len() ==> !((#[trigger] changes@[j0]).0 == cp && changes@[
                    j0].1 == NeededStateChange::Delete)) implies #[trigger] region.spec_chunk(cp)
                == pre_region.spec_chunk(cp) by {
                assert(!delete_before(changes@, changes@.len() as int, cp.0)) by {
                    reveal(delete_before);
                }
            }
            assert forall|k: IVec3|
                pre_chunks.contains_key(k) && !has_delete_for(changes@, k)
                    implies #[trigger] self.chunks@.contains_key(k) by {
                reveal(has_delete_for);
            }
        }
        orders
    }
}

/// Stable insertion sort of render results by squared distance of their
/// position from the loader, ascending; keeps exactly the same results.
fn sort_render_results_by_distance(loader: ChunkPos, results: Vec<RenderResult>) -> (r: Vec<
    RenderResult,
>)
    ensures
        r@.len() == results@.len(),
        r@.to_multiset() == results@.to_multiset(),
        forall|a: int, b: int|
            0 <= a < b < r@.len() ==> crate::ivec::dist_sq((#[trigger] r@[a]).pos.0, loader.0)
                <= crate::ivec::dist_sq((#[trigger] r@[b]).pos.0, loader.0),
{
    broadcast use vstd::seq_lib::group_to_multiset_ensures;

    let mut v = results;
    let ghost n = v@.len();
    let ghost orig = v@;
    let mut i: usize = 1;
    while i < v.len()
        invariant
            1 <= i,
            v@.len() == n,
            v@.to_multiset() == orig.to_multiset(),
            forall|a: int, b: int|
                0 <= a < b < i && b < v@.len() ==> crate::ivec::dist_sq(
                    (#[trigger] v@[a]).pos.0,
                    loader.0,
                ) <= crate::ivec::dist_sq((#[trigger] v@[b]).pos.0, loader.0),
        decreases v@.len() - i,
    {
        let ghost before = v@;
        let x = v.remove(i);
        let mut p: usize = i;
        while p > 0 && v[p - 1].pos.0.distance_squared(loader.0) > x.pos.0.distance_squared(
            loader.0,
        )
            invariant
                p <= i,
                i < before.len(),
                v@ == before.remove(i as int),
                forall|q: int|
                    p <= q < i ==> crate::ivec::dist_sq((#[trigger] v@[q]).pos.0, loader.0)
                        > crate::ivec::dist_sq(x.pos.0, loader.0),
            decreases p,
        {
            p -= 1;
        }
        v.insert(p, x);
        proof {
            broadcast use vstd::multiset::group_multiset_axioms;

            assert(v@ == before.remove(i as int).insert(p as int, x));
            assert(before[i as int] == x);
            assert(before.contains(x));
            vstd::seq_lib::to_multiset_remove(before, i as int);
            vstd::seq_lib::to_multiset_insert(before.remove(i as int), p as int, x);
            before.to_multiset_ensures();
            assert(before.to_multiset().count(x) > 0);
            assert(v@.to_multiset() == before.to_multiset().remove(x).insert(x));
            assert(v@.to_multiset() =~= before.to_multiset());
            assert(v@.to_multiset() == orig.to_multiset());
            assert forall|a: int, b: int|
                0 <= a < b < i + 1 && b < v@.len() implies crate::ivec::dist_sq(
                (#[trigger] v@[a]).pos.0,
                loader.0,
            ) <= crate::ivec::dist_sq((#[trigger] v@[b]).pos.0, loader.0) by {
                let w = before.remove(i as int);
                if a < p {
                    assert(v@[a] == w[a]);
                } else if a == p {
                    assert(v@[a] == x);
                } else {
                    assert(v@[a] == w[a - 1]);
                }
                if b < p {
                    assert(v@[b] == w[b]);
                } else if b == p {
                    assert(v@[b] == x);
                } else {
                    assert(v@[b] == w[b - 1]);
                }
                if p > 0 {
                    assert(crate::ivec::dist_sq(w[p - 1].pos.0, loader.0) <= crate::ivec::dist_sq(
                        x.pos.0,
                        loader.0,
                    ));
                }
            }
        }
        i += 1;
    }
    v
}

impl FixedChunkWorld {
    /// Integrates finished generation results: a result for a chunk
    /// still short of data stores that result's voxels and advances the
    /// chunk to `Generated`; stale results are discarded; freshly
    /// sampled noise columns are cached under their column key.
    #[verifier::rlimit(100)]
    #[verifier::spinoff_prover]
    fn integrate_generated(&mut self, generated: Vec<GenerateResult>)
        requires
            old(self).wf(),
            forall|i: int|
                0 <= i < generated@.len() ==> (#[trigger] generated@[i]).chunk.wf() && (generated@[i].new_noise matches Some(n)
                    ==> n.wf()),
        ensures
            final(self).wf(),
            states_advance(old(self).chunks@, final(self).chunks@),
            forall|k: IVec3| #[trigger]
                final(self).chunks@.contains_key(k) == old(self).chunks@.contains_key(k),
            // every entry is untouched or holds exactly one result's data
            forall|k: IVec3|
                final(self).chunks@.contains_key(k) ==> ((#[trigger] final(self).chunks@[k])
                    == old(self).chunks@[k] || (state_rank(old(self).chunks@[k].state) <= 1
                    && final(self).chunks@[k].state == ChunkState::Generated && final(self).chunks@[k].needed_state == old(self).chunks@[k].needed_state && final(self).chunks@[k].pos == old(self).chunks@[k].pos && (exists|j: int|
                    0 <= j < generated@.len() && (#[trigger] generated@[j]).pos.0 == k && final(self).chunks@[k].chunk == Some(generated@[j].chunk)))),
            // a result for a chunk still short of data always lands
            forall|k: IVec3|
                old(self).chunks@.contains_key(k) && state_rank(old(self).chunks@[k].state) <= 1
                    && (exists|j: int|
                    0 <= j < generated@.len() && (#[trigger] generated@[j]).pos.0 == k) ==> (
                #[trigger] final(self).chunks@[k]).state == ChunkState::Generated,
            // freshly sampled noise is cached under its column key
            forall|j: int|
                0 <= j < generated@.len() && (#[trigger] generated@[j]).new_noise is Some ==> {
                    &&& final(self).heightmaps@.contains_key(noise_key(generated@[j].pos))
                    &&& exists|j2: int|
                        0 <= j2 < generated@.len() && noise_key((#[trigger] generated@[j2]).pos)
                            == noise_key(generated@[j].pos) && generated@[j2].new_noise == Some(
                            final(self).heightmaps@[noise_key(generated@[j].pos)],
                        )
                },
            forall|key: IVec3|
                (forall|j: int|
                    0 <= j < generated@.len() ==> !((#[trigger] generated@[j]).new_noise
                        is Some && noise_key(generated@[j].pos) == key)) ==> #[trigger] final(self).heightmaps@.contains_key(key) == old(self).heightmaps@.contains_key(key) && (
                final(self).heightmaps@.contains_key(key) ==> final(self).heightmaps@[key]
                    == old(self).heightmaps@[key]),
    {
        let ghost pre_chunks = old(self).chunks@;
        let ghost pre_hm = old(self).heightmaps@;
        let ghost gen0 = generated@;

        let mut generated = generated;
        proof {
            assert(generated@ =~= gen0.take(generated@.len() as int));
        }
        while generated.len() > 0
            invariant
                self.wf(),
                pre_chunks == old(self).chunks@,
                pre_hm == old(self).heightmaps@,
                states_advance(pre_chunks, self.chunks@),
                forall|k: IVec3| #[trigger]
                    self.chunks@.contains_key(k) == pre_chunks.contains_key(k),
                generated@.len() <= gen0.len(),
                generated@ == gen0.take(generated@.len() as int),
                forall|i: int|
                    0 <= i < gen0.len() ==> (#[trigger] gen0[i]).chunk.wf() && (gen0[i].new_noise matches Some(n)
                        ==> n.wf()),
                forall|k: IVec3|
                    self.chunks@.contains_key(k) ==> ((#[trigger] self.chunks@[k]) == pre_chunks[
                    k] || (state_rank(pre_chunks[k].state) <= 1 && self.chunks@[k].state
                        == ChunkState::Generated && self.chunks@[k].needed_state == pre_chunks[
                    k].needed_state && self.chunks@[k].pos == pre_chunks[k].pos && (exists|
                        j: int,
                    |
                        generated@.len() <= j < gen0.len() && (#[trigger] gen0[j]).pos.0 == k
                            && self.chunks@[k].chunk == Some(gen0[j].chunk)))),
                forall|k: IVec3|
                    pre_chunks.contains_key(k) && state_rank(pre_chunks[k].state) <= 1 && (
                    exists|j: int|
                        generated@.len() <= j < gen0.len() && (#[trigger] gen0[j]).pos.0 == k)
                        ==> (#[trigger] self.chunks@[k]).state == ChunkState::Generated,
                forall|j: int|
                    generated@.len() <= j < gen0.len() && (#[trigger] gen0[j]).new_noise
                        is Some ==> {
                        &&& self.heightmaps@.contains_key(noise_key(gen0[j].pos))
                        &&& exists|j2: int|
                            generated@.len() <= j2 < gen0.len() && noise_key(
                                (#[trigger] gen0[j2]).pos,
                            ) == noise_key(gen0[j].pos) && gen0[j2].new_noise == Some(
                                self.heightmaps@[noise_key(gen0[j].pos)],
                            )
                    },
                forall|key: IVec3|
                    (forall|j: int|
                        0 <= j < gen0.len() ==> !((#[trigger] gen0[j]).new_noise is Some
                            && noise_key(gen0[j].pos) == key)) ==> #[trigger] self.heightmaps@.contains_key(
                        key,
                    ) == pre_hm.contains_key(key) && (self.heightmaps@.contains_key(key)
                        ==> self.heightmaps@[key] == pre_hm[key]),
            decreases generated@.len(),
        {
            let ghost pre_len = generated@.len() as int;
            let gr = generated.pop().unwrap();
            proof {
                assert(generated@ =~= gen0.take(pre_len - 1));
                assert(gr == gen0.take(pre_len)[pre_len - 1]);
                assert(gr == gen0[pre_len - 1]);
            }
            let GenerateResult { pos, chunk, new_noise } = gr;
            match new_noise {
                Some(noise) => {
                    self.heightmaps.insert(IVec3 { x: pos.0.x, y: 0, z: pos.0.z }, noise);
                    proof {
                        assert(self.heightmaps@.contains_key(noise_key(pos)));
                        assert(gen0[pre_len - 1].new_noise == Some(
                            self.heightmaps@[noise_key(pos)],
                        ));
                    }
                },
                None => {},
            }
            let ghost chunks_at = self.chunks@;
            match self.chunks.remove(pos.0) {
                Some(lc) => {
                    if matches!(lc.state, ChunkState::Empty | ChunkState::Generating) {
                        let updated = LoadedChunk {
                            chunk: Some(chunk),
                            state: ChunkState::Generated,
                            ..lc
                        };
                        self.chunks.insert(pos.0, updated);
                        proof {
                            assert(self.chunks@[pos.0].chunk == Some(gen0[pre_len - 1].chunk));
                            assert(state_rank(pre_chunks[pos.0].state) <= 1);
                        }
                    } else {
                        self.chunks.insert(pos.0, lc);
                        proof {
                            assert(self.chunks@ =~= chunks_at);
                        }
                    }
                },
                None => {
                    proof {
                        assert(self.chunks@ =~= chunks_at);
                    }
                },
            }
            proof {
                assert(gen0[pre_len - 1].pos.0 == pos.0);
                if pre_chunks.contains_key(pos.0) {
                    assert(self.chunks@[pos.0].wf());
                }
            }
        }
    }

    /// Integrates finished render results, closest to the loader first:
    /// a result for a mid-render chunk advances it to `Rendered` and its
    /// mesh (if any) is handed out, at most two per call; once the cap
    /// is hit the remaining results come back as leftovers for the next
    /// tick.
    #[verifier::rlimit(100)]
    #[verifier::spinoff_prover]
    fn integrate_rendered(&mut self, loader: Option<ChunkPos>, rendered: Vec<RenderResult>)
        -> (r: (Vec<(ChunkPos, crate::mesh::ChunkMeshData)>, Vec<RenderResult>))
        requires
            old(self).wf(),
        ensures
            final(self).wf(),
            final(self).heightmaps@ == old(self).heightmaps@,
            render_shape(old(self).chunks@, final(self).chunks@, rendered@),
            r.0@.len() <= 2,
            emitted_sound(r.0@, rendered@, old(self).chunks@, final(self).chunks@),
            emit_ordered(loader, r.0@, Seq::empty()),
            r.1@.len() > 0 ==> r.0@.len() == 2,
            r.1@.to_multiset().subset_of(rendered@.to_multiset()),
            render_progress(old(self).chunks@, rendered@, r.1@, Seq::empty(), final(self).chunks@),
    {
        let ghost mid_chunks = old(self).chunks@;
        let ghost ren0 = rendered@;
        broadcast use vstd::seq_lib::group_to_multiset_ensures;
        broadcast use vstd::multiset::axiom_multiset_add;

        let sorted = match loader {
            Some(loader) => sort_render_results_by_distance(loader, rendered),
            None => rendered,
        };
        let ghost sorted0 = sorted@;

        let mut emitted: Vec<(ChunkPos, crate::mesh::ChunkMeshData)> = Vec::new();
        let mut leftover: Vec<RenderResult> = Vec::new();
        let mut sorted = sorted;
        proof {
            assert forall|v: RenderResult|
                leftover@.to_multiset().add(sorted@.to_multiset()).count(v)
                    <= ren0.to_multiset().count(v) by {
                assert(!leftover@.contains(v) ==> leftover@.to_multiset().count(v) == 0);
            }
            assert(render_shape(mid_chunks, self.chunks@, ren0)) by {
                reveal(render_shape);
            }
            assert(emitted_sound(emitted@, ren0, mid_chunks, self.chunks@)) by {
                reveal(emitted_sound);
            }
            assert(emit_ordered(loader, emitted@, sorted@)) by {
                reveal(emit_ordered);
            }
            assert(render_progress(mid_chunks, sorted0, leftover@, sorted@, self.chunks@)) by {
                reveal(render_progress);
                assert(sorted@ == sorted0);
            }
        }
        while sorted.len() > 0
            invariant
                self.wf(),
                mid_chunks == old(self).chunks@,
                self.heightmaps@ == old(self).heightmaps@,
                render_shape(mid_chunks, self.chunks@, ren0),
                emitted@.len() <= 2,
                leftover@.len() > 0 ==> emitted@.len() == 2,
                leftover@.to_multiset().add(sorted@.to_multiset()).subset_of(
                    ren0.to_multiset(),
                ),
                emitted_sound(emitted@, ren0, mid_chunks, self.chunks@),
                emit_ordered(loader, emitted@, sorted@),
                render_progress(mid_chunks, sorted0, leftover@, sorted@, self.chunks@),
            decreases sorted@.len(),
        {
            let ghost pre_sorted = sorted@;
            let ghost pre_leftover = leftover@;
            let ghost pre_emitted = emitted@;
            let ghost pre_map = self.chunks@;
            let rr = match sorted.remove(0) {
                rr => rr,
            };
            proof {
                assert(pre_sorted[0] == rr);
                vstd::seq_lib::to_multiset_remove(pre_sorted, 0);
                assert(sorted@.to_multiset() == pre_sorted.to_multiset().remove(rr));
                assert forall|s1: int| 0 <= s1 < sorted@.len() implies #[trigger] sorted@[s1]
                    == pre_sorted[s1 + 1] by {}
                // the processed result is one of the render inputs
                assert(pre_sorted.contains(rr));
                vstd::seq_lib::to_multiset_contains(pre_sorted, rr);
                vstd::seq_lib::to_multiset_contains(ren0, rr);
                assert(pre_sorted.to_multiset().count(rr) > 0);
                assert(pre_leftover.to_multiset().add(pre_sorted.to_multiset()).count(rr)
                    >= pre_sorted.to_multiset().count(rr));
                assert(ren0.to_multiset().count(rr) > 0);
                assert(ren0.contains(rr));
                let jw = choose|jw: int| 0 <= jw < ren0.len() && ren0[jw] == rr;
                assert((#[trigger] ren0[jw]).pos.0 == rr.pos.0);
                assert forall|v: RenderResult|
                    pre_leftover.to_multiset().add(sorted@.to_multiset()).count(v)
                        <= ren0.to_multiset().count(v) by {
                    assert(pre_leftover.to_multiset().add(pre_sorted.to_multiset()).count(v)
                        <= ren0.to_multiset().count(v));
                }
            }
            if emitted.len() >= 2 {
                leftover.push(rr);
                proof {
                    assert(leftover@ =~= pre_leftover.insert(pre_leftover.len() as int, rr));
                    vstd::seq_lib::to_multiset_insert(
                        pre_leftover,
                        pre_leftover.len() as int,
                        rr,
                    );
                    assert forall|v: RenderResult|
                        leftover@.to_multiset().add(sorted@.to_multiset()).count(v)
                            <= ren0.to_multiset().count(v) by {
                        assert(pre_leftover.to_multiset().add(pre_sorted.to_multiset()).count(
                            v,
                        ) <= ren0.to_multiset().count(v));
                    }
                    assert(emit_ordered(loader, emitted@, sorted@)) by {
                        reveal(emit_ordered);
                    }
                    assert(render_progress(
                        mid_chunks,
                        sorted0,
                        leftover@,
                        sorted@,
                        self.chunks@,
                    )) by {
                        reveal(render_progress);
                        assert(leftover@.len() == pre_leftover.len() + 1);
                        assert(leftover@[pre_leftover.len() as int] == rr);
                        assert forall|k: IVec3|
                            mid_chunks.contains_key(k) && mid_chunks[k].state
                                == ChunkState::Rendering && (exists|j: int|
                                0 <= j < sorted0.len() && (#[trigger] sorted0[j]).pos.0 == k)
                                && (forall|e: int|
                                0 <= e < leftover@.len() ==> (#[trigger] leftover@[e]).pos.0
                                    != k) && (forall|e: int|
                                0 <= e < sorted@.len() ==> (#[trigger] sorted@[e]).pos.0 != k)
                                implies (#[trigger] self.chunks@[k]).state
                                == ChunkState::Rendered by {
                            assert(leftover@[pre_leftover.len() as int].pos.0 != k);
                            assert forall|e: int|
                                0 <= e < pre_sorted.len() implies (
                            #[trigger] pre_sorted[e]).pos.0 != k by {
                                if e == 0 {
                                    assert(pre_sorted[0] == rr);
                                } else {
                                    assert(sorted@[e - 1] == pre_sorted[e]);
                                }
                            }
                            assert forall|e: int|
                                0 <= e < pre_leftover.len() implies (
                            #[trigger] pre_leftover[e]).pos.0 != k by {
                                assert(leftover@[e] == pre_leftover[e]);
                            }
                        }
                    }
                }
            } else {
                let RenderResult { pos, mesh } = rr;
                match self.chunks.remove(pos.0) {
                    Some(lc) => {
                        if matches!(lc.state, ChunkState::Rendering) {
                            let updated = LoadedChunk { state: ChunkState::Rendered, ..lc };
                            self.chunks.insert(pos.0, updated);
                            proof {
                                assert(render_shape(mid_chunks, self.chunks@, ren0)) by {
                                    reveal(render_shape);
                                    assert(mid_chunks[pos.0].state == ChunkState::Rendering)
                                        by {
                                        assert(pre_map[pos.0].state == ChunkState::Rendering);
                                    }
                                }
                            }
                            match mesh {
                                Some(mesh) => {
                                    emitted.push((pos, mesh));
                                    proof {
                                        let jw = choose|jw: int|
                                            0 <= jw < ren0.len() && ren0[jw] == (RenderResult {
                                                pos,
                                                mesh: Some(emitted@.last().1),
                                            });
                                        assert(emitted_sound(
                                            emitted@,
                                            ren0,
                                            mid_chunks,
                                            self.chunks@,
                                        )) by {
                                            reveal(emitted_sound);
                                            reveal(render_shape);
                                            assert forall|e: int|
                                                0 <= e < pre_emitted.len() implies (
                                            #[trigger] emitted@[e]) == pre_emitted[e] && (
                                            #[trigger] self.chunks@[emitted@[e].0.0]).state
                                                == ChunkState::Rendered by {
                                                assert(pre_map[pre_emitted[e].0.0].state
                                                    == ChunkState::Rendered);
                                                assert(pre_emitted[e].0.0 != pos.0);
                                            }
                                            assert(ren0[jw].pos == emitted@.last().0);
                                        }
                                        assert(emit_ordered(loader, emitted@, sorted@)) by {
                                            reveal(emit_ordered);
                                            assert forall|e: int|
                                                0 <= e < emitted@.len() implies (
                                            #[trigger] emitted@[e]) == (if e
                                                < pre_emitted.len() {
                                                pre_emitted[e]
                                            } else {
                                                (pos, emitted@.last().1)
                                            }) by {}
                                        }
                                    }
                                },
                                None => {
                                    proof {
                                        assert(emitted_sound(
                                            emitted@,
                                            ren0,
                                            mid_chunks,
                                            self.chunks@,
                                        )) by {
                                            reveal(emitted_sound);
                                            reveal(render_shape);
                                            assert forall|e: int|
                                                0 <= e < emitted@.len() implies (
                                            #[trigger] self.chunks@[emitted@[e].0.0]).state
                                                == ChunkState::Rendered by {
                                                assert(pre_map[emitted@[e].0.0].state
                                                    == ChunkState::Rendered);
                                                assert(emitted@[e].0.0 != pos.0);
                                            }
                                        }
                                        assert(emit_ordered(loader, emitted@, sorted@)) by {
                                            reveal(emit_ordered);
                                        }
                                    }
                                },
                            }
                        } else {
                            self.chunks.insert(pos.0, lc);
                            proof {
                                assert(self.chunks@ =~= pre_map);
                                assert(emit_ordered(loader, emitted@, sorted@)) by {
                                    reveal(emit_ordered);
                                }
                            }
                        }
                    },
                    None => {
                        proof {
                            assert(self.chunks@ =~= pre_map.remove(pos.0));
                            assert(self.chunks@ =~= pre_map) by {
                                reveal(render_shape);
                                assert(!mid_chunks.contains_key(pos.0));
                                assert(!pre_map.contains_key(pos.0));
                            }
                            assert(emit_ordered(loader, emitted@, sorted@)) by {
                                reveal(emit_ordered);
                            }
                        }
                    },
                }
                proof {
                    assert(render_progress(
                        mid_chunks,
                        sorted0,
                        leftover@,
                        sorted@,
                        self.chunks@,
                    )) by {
                        reveal(render_progress);
                        reveal(render_shape);
                        assert forall|k: IVec3|
                            mid_chunks.contains_key(k) && mid_chunks[k].state
                                == ChunkState::Rendering && (exists|j: int|
                                0 <= j < sorted0.len() && (#[trigger] sorted0[j]).pos.0 == k)
                                && (forall|e: int|
                                0 <= e < leftover@.len() ==> (#[trigger] leftover@[e]).pos.0
                                    != k) && (forall|e: int|
                                0 <= e < sorted@.len() ==> (#[trigger] sorted@[e]).pos.0 != k)
                                implies (#[trigger] self.chunks@[k]).state
                                == ChunkState::Rendered by {
                            if k == pos.0 {
                                assert(self.chunks@[k].state == ChunkState::Rendered);
                            } else {
                                if !(forall|e: int|
                                    0 <= e < pre_sorted.len() ==> (
                                    #[trigger] pre_sorted[e]).pos.0 != k) {
                                    let e0 = choose|e0: int|
                                        0 <= e0 < pre_sorted.len() && (
                                        #[trigger] pre_sorted[e0]).pos.0 == k;
                                    assert(e0 != 0);
                                    assert(sorted@[e0 - 1].pos.0 == k);
                                    assert(false);
                                }
                                assert(self.chunks@[k] == pre_map[k]);
                            }
                        }
                    }
                }
            }
        }
        proof {
            assert forall|v: RenderResult|
                leftover@.to_multiset().count(v) <= ren0.to_multiset().count(v) by {
                assert(leftover@.to_multiset().add(sorted@.to_multiset()).count(v)
                    <= ren0.to_multiset().count(v));
            }
            assert(emit_ordered(loader, emitted@, Seq::empty())) by {
                reveal(emit_ordered);
            }
            assert(render_progress(mid_chunks, ren0, leftover@, Seq::<RenderResult>::empty(), self.chunks@)) by {
                reveal(render_progress);
                assert forall|k: IVec3|
                    mid_chunks.contains_key(k) && mid_chunks[k].state == ChunkState::Rendering
                        && (exists|j: int|
                        0 <= j < ren0.len() && (#[trigger] ren0[j]).pos.0 == k) && (forall|e: int|
                        0 <= e < leftover@.len() ==> (#[trigger] leftover@[e]).pos.0 != k)
                        implies (#[trigger] self.chunks@[k]).state == ChunkState::Rendered by {
                    let j = choose|j: int| 0 <= j < ren0.len() && (#[trigger] ren0[j]).pos.0 == k;
                    assert(ren0.contains(ren0[j]));
                    vstd::seq_lib::to_multiset_contains(ren0, ren0[j]);
                    vstd::seq_lib::to_multiset_contains(sorted0, ren0[j]);
                    assert(ren0.to_multiset().count(ren0[j]) > 0);
                    assert(sorted0.to_multiset().count(ren0[j]) > 0);
                    assert(sorted0.contains(ren0[j]));
                    let j2 = choose|j2: int| 0 <= j2 < sorted0.len() && sorted0[j2] == ren0[j];
                    assert(sorted0[j2].pos.0 == k);
                    assert(sorted@.len() == 0);
                }
            }
        }
        (emitted, leftover)
    }

    /// Integrates finished work: generation results are stored first,
    /// then render results are integrated closest-first under the
    /// two-mesh backpressure cap. See `integrate_generated` and
    /// `integrate_rendered` for the per-phase behavior; the clauses here
    /// restate it against the entry state.
    pub fn collect_finished_tasks(
        &mut self,
        loader: Option<ChunkPos>,
        generated: Vec<GenerateResult>,
        rendered: Vec<RenderResult>,
    ) -> (r: (Vec<(ChunkPos, crate::mesh::ChunkMeshData)>, Vec<RenderResult>))
        requires
            old(self).wf(),
            forall|i: int|
                0 <= i < generated@.len() ==> (#[trigger] generated@[i]).chunk.wf() && (generated@[i].new_noise matches Some(n)
                    ==> n.wf()),
        ensures
            final(self).wf(),
            states_advance(old(self).chunks@, final(self).chunks@),
            forall|k: IVec3| #[trigger]
                final(self).chunks@.contains_key(k) == old(self).chunks@.contains_key(k),
            r.0@.len() <= 2,
            // chunks no result speaks of are untouched
            forall|k: IVec3|
                old(self).chunks@.contains_key(k) && (forall|j: int|
                    0 <= j < generated@.len() ==> (#[trigger] generated@[j]).pos.0 != k) && (
                forall|j: int|
                    0 <= j < rendered@.len() ==> (#[trigger] rendered@[j]).pos.0 != k)
                    ==> #[trigger] final(self).chunks@[k] == old(self).chunks@[k],
            // a generation result for a chunk still short of data leaves it
            // generated, holding one result's voxel data
            forall|k: IVec3|
                old(self).chunks@.contains_key(k) && state_rank(old(self).chunks@[k].state) <= 1
                    && (exists|j: int|
                    0 <= j < generated@.len() && (#[trigger] generated@[j]).pos.0 == k) ==> (
                #[trigger] final(self).chunks@[k]).state == ChunkState::Generated && (exists|j: int|
                    0 <= j < generated@.len() && (#[trigger] generated@[j]).pos.0 == k && final(self).chunks@[k].chunk == Some(generated@[j].chunk)),
            // chunks already past generation keep their data; a render
            // result may move a mid-render chunk to rendered, nothing else
            forall|k: IVec3|
                old(self).chunks@.contains_key(k) && state_rank(old(self).chunks@[k].state) >= 2
                    ==> (#[trigger] final(self).chunks@[k]).chunk == old(self).chunks@[k].chunk
                    && (final(self).chunks@[k].state == old(self).chunks@[k].state || (old(self).chunks@[k].state == ChunkState::Rendering && final(self).chunks@[k].state
                    == ChunkState::Rendered)),
            // freshly sampled noise is cached under its column key
            forall|j: int|
                0 <= j < generated@.len() && (#[trigger] generated@[j]).new_noise is Some ==> {
                    &&& final(self).heightmaps@.contains_key(noise_key(generated@[j].pos))
                    &&& exists|j2: int|
                        0 <= j2 < generated@.len() && noise_key((#[trigger] generated@[j2]).pos)
                            == noise_key(generated@[j].pos) && generated@[j2].new_noise == Some(
                            final(self).heightmaps@[noise_key(generated@[j].pos)],
                        )
                },
            forall|key: IVec3|
                (forall|j: int|
                    0 <= j < generated@.len() ==> !((#[trigger] generated@[j]).new_noise
                        is Some && noise_key(generated@[j].pos) == key)) ==> #[trigger] final(self).heightmaps@.contains_key(key) == old(self).heightmaps@.contains_key(key) && (
                final(self).heightmaps@.contains_key(key) ==> final(self).heightmaps@[key]
                    == old(self).heightmaps@[key]),
            // every mesh handed out is the mesh of a render result whose
            // chunk was mid-render, and that chunk is rendered now
            forall|e: int|
                0 <= e < r.0@.len() ==> {
                    &&& exists|j: int|
                        0 <= j < rendered@.len() && (#[trigger] rendered@[j]).pos == (
                        #[trigger] r.0@[e]).0 && rendered@[j].mesh == Some(r.0@[e].1)
                    &&& old(self).chunks@.contains_key(r.0@[e].0.0)
                    &&& old(self).chunks@[r.0@[e].0.0].state == ChunkState::Rendering
                    &&& final(self).chunks@[r.0@[e].0.0].state == ChunkState::Rendered
                },
            // meshes go out closest-first when a loader is known
            loader matches Some(lp) ==> (forall|e1: int, e2: int|
                0 <= e1 < e2 < r.0@.len() ==> crate::ivec::dist_sq(
                    (#[trigger] r.0@[e1]).0.0,
                    lp.0,
                ) <= crate::ivec::dist_sq((#[trigger] r.0@[e2]).0.0, lp.0)),
            // render results are never lost: what is not integrated comes
            // back, and only because the cap was hit
            r.1@.len() > 0 ==> r.0@.len() == 2,
            r.1@.to_multiset().subset_of(rendered@.to_multiset()),
            forall|k: IVec3|
                old(self).chunks@.contains_key(k) && old(self).chunks@[k].state
                    == ChunkState::Rendering && (exists|j: int|
                    0 <= j < rendered@.len() && (#[trigger] rendered@[j]).pos.0 == k) && (forall|e: int|
                    0 <= e < r.1@.len() ==> (#[trigger] r.1@[e]).pos.0 != k) ==> (
                #[trigger] final(self).chunks@[k]).state == ChunkState::Rendered,
    {
        let ghost pre_chunks = old(self).chunks@;
        self.integrate_generated(generated);
        let ghost mid_chunks = self.chunks@;
        let ghost ren0 = rendered@;
        let r = self.integrate_rendered(loader, rendered);
        proof {
            reveal(render_shape);
            reveal(emitted_sound);
            reveal(emit_ordered);
            // generation leaves everything at or past `Generated` alone, so
            // the render phase's entry state agrees with the entry state
            // wherever the render phase acts
            assert forall|k: IVec3|
                pre_chunks.contains_key(k) && state_rank(pre_chunks[k].state) >= 2 implies
                #[trigger] mid_chunks[k] == pre_chunks[k] by {}
            assert forall|e: int| 0 <= e < r.0@.len() implies pre_chunks.contains_key(
                (#[trigger] r.0@[e]).0.0,
            ) && pre_chunks[r.0@[e].0.0].state == ChunkState::Rendering && final(self).chunks@[
            r.0@[e].0.0].state == ChunkState::Rendered by {
                assert(mid_chunks[r.0@[e].0.0].state == ChunkState::Rendering);
                if mid_chunks[r.0@[e].0.0] != pre_chunks[r.0@[e].0.0] {
                    assert(mid_chunks[r.0@[e].0.0].state == ChunkState::Generated);
                    assert(false);
                }
            }
            assert forall|k: IVec3|
                pre_chunks.contains_key(k) && pre_chunks[k].state == ChunkState::Rendering
                    implies #[trigger] mid_chunks[k] == pre_chunks[k] by {}
            reveal(render_progress);
            assert forall|k: IVec3|
                pre_chunks.contains_key(k) && pre_chunks[k].state == ChunkState::Rendering && (
                exists|j: int|
                    0 <= j < ren0.len() && (#[trigger] ren0[j]).pos.0 == k) && (forall|e: int|
                    0 <= e < r.1@.len() ==> (#[trigger] r.1@[e]).pos.0 != k) implies (
            #[trigger] final(self).chunks@[k]).state == ChunkState::Rendered by {
                assert(mid_chunks.contains_key(k));
                assert(mid_chunks[k] == pre_chunks[k]);
                assert(Seq::<RenderResult>::empty().len() == 0);
            }
        }
        r
    }
}

/// Produces the voxel data a `Generate` work order asks for: persisted
/// data when the region store (lazily filled from the provided file
/// bytes) has the chunk, else a fresh run of the deterministic terrain
/// generator on the column's heights.
pub fn load_or_generate_chunk(
    region: &mut crate::region::RegionHandler,
    settings: &crate::world_noise::WorldNoiseSettings,
    pos: ChunkPos,
    column: &Chunk2dNoiseValues,
    region_file_bytes: Option<Vec<u8>>,
) -> (r: Chunk)
    requires
        old(region).wf(),
        column.wf(),
        -30000 <= pos.0.y <= 30000,
    ensures
        final(region).wf(),
        r.wf(),
        !r.edges_dirty,
        match final(region).spec_chunk(pos) {
            Some(v) => r.voxels@ == v,
            None => forall|x: int, y: int, z: int|
                0 <= x < crate::CHUNK_WIDTH && 0 <= y < crate::CHUNK_WIDTH && 0 <= z
                    < crate::CHUNK_WIDTH ==> r.voxels@[#[trigger] crate::chunk::lin_idx(x, y, z)]
                    == crate::world_noise::generated_voxel(
                    column.heightmap@,
                    pos.0.y as int,
                    x,
                    y,
                    z,
                ),
        },
{
    let existing = region.check_for_chunk(pos, region_file_bytes);
    match existing {
        Some(c) => {
            let dup = c.duplicate();
            proof {
                assert(region.spec_chunk(pos) == Some(c@));
            }
            Chunk::from_container(dup)
        },
        None => settings.generate_chunk_from_noise(pos.0.y, column),
    }
}

impl crate::region::RegionHandler {
    /// Pulls the voxel data of every generated chunk in the live world
    /// into the resident regions, ready for a flush to disk.
    pub fn extract_chunks(&mut self, chunk_world: &FixedChunkWorld)
        requires
            old(self).wf(),
            chunk_world.wf(),
        ensures
            final(self).wf(),
            forall|k: IVec3|
                chunk_world.chunks@.contains_key(k) && (#[trigger] chunk_world.chunks@[k]).chunk
                    is Some ==> final(self).spec_chunk(ChunkPos(k)) == Some(
                    chunk_world.chunks@[k].chunk.unwrap().voxels@,
                ),
            // slots the world holds no data for keep their stored chunk
            forall|cp: ChunkPos|
                !(chunk_world.chunks@.contains_key(cp.0) && (#[trigger] chunk_world.chunks@[
                cp.0]).chunk is Some) ==> final(self).spec_chunk(cp) == old(self).spec_chunk(cp),
    {
        let ghost pre0 = *old(self);
        let mut i: usize = 0;
        while i < chunk_world.chunks.entries.len()
            invariant
                self.wf(),
                chunk_world.wf(),
                i <= chunk_world.chunks.entries@.len(),
                forall|cp: ChunkPos|
                    !(chunk_world.chunks@.contains_key(cp.0) && (
                    #[trigger] chunk_world.chunks@[cp.0]).chunk is Some) ==> self.spec_chunk(cp)
                        == pre0.spec_chunk(cp),
                forall|i0: int|
                    0 <= i0 < i && (#[trigger] chunk_world.chunks.entries@[i0]).1.chunk
                        is Some ==> self.spec_chunk(ChunkPos(chunk_world.chunks.entries@[i0].0))
                        == Some(chunk_world.chunks.entries@[i0].1.chunk.unwrap().voxels@),
            decreases chunk_world.chunks.entries@.len() - i,
        {
            let (k, lc) = &chunk_world.chunks.entries[i];
            proof {
                crate::posmap::lemma_entries_map_char(chunk_world.chunks.entries@);
            }
            match &lc.chunk {
                Some(ch) => {
                    let voxels = ch.voxels.duplicate();
                    proof {
                        assert(chunk_world.chunks@[*k].wf());
                    }
                    let ghost pre_handler = *self;
                    self.set_chunk(ChunkPos(*k), Some(voxels));
                    proof {
                        assert(chunk_world.chunks@.contains_key(*k));
                        assert forall|cp: ChunkPos|
                            !(chunk_world.chunks@.contains_key(cp.0) && (
                        #[trigger] chunk_world.chunks@[cp.0]).chunk is Some) implies
                            self.spec_chunk(cp) == pre0.spec_chunk(cp) by {
                            assert(cp != ChunkPos(*k));
                            assert(self.spec_chunk(cp) == pre_handler.spec_chunk(cp));
                        }
                        assert forall|i0: int|
                            0 <= i0 < i + 1 && (#[trigger] chunk_world.chunks.entries@[
                        i0]).1.chunk is Some implies self.spec_chunk(
                            ChunkPos(chunk_world.chunks.entries@[i0].0),
                        ) == Some(chunk_world.chunks.entries@[i0].1.chunk.unwrap().voxels@) by {
                            if i0 < i && ChunkPos(chunk_world.chunks.entries@[i0].0) != ChunkPos(
                                *k,
                            ) {
                            }
                        }
                    }
                },
                None => {},
            }
            i += 1;
        }
        proof {
            crate::posmap::lemma_entries_map_char(chunk_world.chunks.entries@);
            assert forall|k: IVec3|
                chunk_world.chunks@.contains_key(k) && (#[trigger] chunk_world.chunks@[k]).chunk
                    is Some implies self.spec_chunk(ChunkPos(k)) == Some(
                chunk_world.chunks@[k].chunk.unwrap().voxels@,
            ) by {
                let i0 = choose|i0: int|
                    0 <= i0 < chunk_world.chunks.entries@.len() && (
                    #[trigger] chunk_world.chunks.entries@[i0]).0 == k;
            }
        }
    }
}

} // verus!
