//! Which chunks to keep around the camera, and what changes when the camera crosses into another
//! chunk.
use std::collections::HashSet;

use vstd::prelude::*;

use crate::chunk;
use crate::chunk::{ChunkPos, Position};
use crate::maps;
use crate::maps::members_of;
use crate::mesh_jobs;
use crate::mesh_jobs::{MeshJobQueue, MeshPriority};

verus! {

broadcast use vstd::std_specs::hash::group_hash_axioms;

/// The chunks that are kept around the camera.
pub struct ChunkLoader {
    /// How far chunks are shown, in chunks.
    pub render_distance: i32,
    /// How much farther a chunk has to be before it is given up.
    pub unload_buffer: i32,
    /// The chunks that are kept, by their keys.
    pub loaded: HashSet<u64>,
    /// The chunk that the camera was in at the last update.
    pub last_center: Option<ChunkPos>,
    /// The chunks that have been asked for and have not come in yet, by their keys.
    pub requested: HashSet<u64>,
}

/// What has to be done when the camera has moved into another chunk.
pub struct LoadPlan {
    /// Chunks that are new: to be generated, or to be asked for.
    pub fresh: Vec<ChunkPos>,
    /// Chunks that are too far away now: to be given up.
    pub unload: Vec<ChunkPos>,
}

/// Chunks that hold a block of the world.
pub open spec fn in_world(p: ChunkPos) -> bool {
    -0x800_0000 <= p.x < 0x800_0000 && -0x800_0000 <= p.z < 0x800_0000
}

/// Distances for which all chunks around a chunk of the world have coordinates.
pub open spec fn is_distance(r: int) -> bool {
    -0x4000_0000 < r < 0x4000_0000
}

pub open spec fn abs(a: int) -> int {
    if a < 0 {
        -a
    } else {
        a
    }
}

/// How many chunks two chunks are apart, along the axis where they are farther apart.
pub open spec fn distance(a: ChunkPos, b: ChunkPos) -> int {
    let dx = abs(a.x - b.x);
    let dz = abs(a.z - b.z);
    if dx > dz {
        dx
    } else {
        dz
    }
}

/// Part of the line of chunks that lies `dx` chunks to the side of a center, from its near end.
pub open spec fn line(center: ChunkPos, r: int, dx: int, n: int) -> Seq<ChunkPos> {
    Seq::new(
        n as nat,
        |k: int| ChunkPos { x: (center.x + dx) as i32, z: (center.z - r + k) as i32 },
    )
}

/// The first lines of the square of chunks around a center.
pub open spec fn lines(center: ChunkPos, r: int, m: int) -> Seq<ChunkPos>
    decreases m,
{
    if m <= 0 {
        Seq::empty()
    } else {
        lines(center, r, m - 1) + line(center, r, m - 1 - r, 2 * r + 1)
    }
}

/// The chunks up to a distance from a center, line by line.
pub open spec fn square(center: ChunkPos, r: int) -> Seq<ChunkPos> {
    if r < 0 {
        Seq::empty()
    } else {
        lines(center, r, 2 * r + 1)
    }
}

/// The chunks of a list whose keys are not in a set, in their order.
pub open spec fn outside(list: Seq<ChunkPos>, set: Set<u64>) -> Seq<ChunkPos>
    decreases list.len(),
{
    if list.len() == 0 {
        list
    } else {
        let rest = outside(list.drop_last(), set);
        if set.contains(chunk::chunk_key(list.last())) {
            rest
        } else {
            rest.push(list.last())
        }
    }
}

/// A set of keys together with those of a list of chunks.
pub open spec fn with_keys(set: Set<u64>, list: Seq<ChunkPos>) -> Set<u64>
    decreases list.len(),
{
    if list.len() == 0 {
        set
    } else {
        with_keys(set, list.drop_last()).insert(chunk::chunk_key(list.last()))
    }
}

/// A set of keys without those of a list of chunks.
pub open spec fn without_keys(set: Set<u64>, list: Seq<ChunkPos>) -> Set<u64>
    decreases list.len(),
{
    if list.len() == 0 {
        set
    } else {
        without_keys(set, list.drop_last()).remove(chunk::chunk_key(list.last()))
    }
}

/// How urgent it is to mesh a chunk that is seen from another.
pub open spec fn priority_at(d: int) -> MeshPriority {
    if d == 0 {
        MeshPriority::Critical
    } else if d == 1 {
        MeshPriority::High
    } else {
        MeshPriority::Medium
    }
}

/// The four chunks that share a side with a chunk.
pub open spec fn beside(pos: ChunkPos, k: int) -> ChunkPos {
    if k == 0 {
        chunk::moved(pos, 1, 0)
    } else if k == 1 {
        chunk::moved(pos, -1, 0)
    } else if k == 2 {
        chunk::moved(pos, 0, 1)
    } else {
        chunk::moved(pos, 0, -1)
    }
}

/// The queues after new chunks were put in, each as urgently as it is near.
pub open spec fn queued(v: Seq<Seq<ChunkPos>>, list: Seq<ChunkPos>, center: ChunkPos) -> Seq<
    Seq<ChunkPos>,
>
    decreases list.len(),
{
    if list.len() == 0 {
        v
    } else {
        mesh_jobs::after_enqueue(
            queued(v, list.drop_last(), center),
            list.last(),
            mesh_jobs::rank(priority_at(distance(list.last(), center))),
        )
    }
}

/// Whether `has_mesh` answers everywhere, and always the same for the same chunk.
pub open spec fn is_mesh_lookup<F: Fn(ChunkPos) -> bool>(has_mesh: F) -> bool {
    &&& forall|p: ChunkPos| #[trigger] call_requires(has_mesh, (p,))
    &&& forall|p: ChunkPos, a: bool, b: bool|
        #[trigger] call_ensures(has_mesh, (p,), a) && #[trigger] call_ensures(has_mesh, (p,), b)
            ==> a == b
}

/// What a lookup answers.
pub open spec fn is_meshed<F: Fn(ChunkPos) -> bool>(has_mesh: F, p: ChunkPos) -> bool {
    call_ensures(has_mesh, (p,), true)
}

/// The queues after the first neighbours of a new chunk were put in again, as far as they are kept
/// and have a mesh.
pub open spec fn remeshed_beside<F: Fn(ChunkPos) -> bool>(
    v: Seq<Seq<ChunkPos>>,
    pos: ChunkPos,
    k: int,
    loaded: Set<u64>,
    has_mesh: F,
) -> Seq<Seq<ChunkPos>>
    decreases k,
{
    if k <= 0 {
        v
    } else {
        let before = remeshed_beside(v, pos, k - 1, loaded, has_mesh);
        let n = beside(pos, k - 1);
        if loaded.contains(chunk::chunk_key(n)) && is_meshed(has_mesh, n) {
            mesh_jobs::after_enqueue(before, n, mesh_jobs::rank(MeshPriority::Low))
        } else {
            before
        }
    }
}

/// The queues after the neighbours of all new chunks were put in again.
pub open spec fn remeshed<F: Fn(ChunkPos) -> bool>(
    v: Seq<Seq<ChunkPos>>,
    list: Seq<ChunkPos>,
    loaded: Set<u64>,
    has_mesh: F,
) -> Seq<Seq<ChunkPos>>
    decreases list.len(),
{
    if list.len() == 0 {
        v
    } else {
        remeshed_beside(
            remeshed(v, list.drop_last(), loaded, has_mesh),
            list.last(),
            4,
            loaded,
            has_mesh,
        )
    }
}

/// The queues without the chunks of a list.
pub open spec fn cancelled(v: Seq<Seq<ChunkPos>>, list: Seq<ChunkPos>) -> Seq<Seq<ChunkPos>>
    decreases list.len(),
{
    if list.len() == 0 {
        v
    } else {
        mesh_jobs::after_cancel(cancelled(v, list.drop_last()), list.last())
    }
}

/// Whether a list names, each once, the kept chunks that are too far from a center.
pub open spec fn lists_far(
    list: Seq<ChunkPos>,
    loaded: Set<u64>,
    center: ChunkPos,
    far: int,
) -> bool {
    &&& list.no_duplicates()
    &&& forall|p: ChunkPos| #[trigger]
        list.contains(p) <==> loaded.contains(chunk::chunk_key(p)) && distance(p, center) > far
}

proof fn lemma_lines(center: ChunkPos, r: int, m: int)
    requires
        in_world(center),
        is_distance(r),
        0 <= m <= 2 * r + 1,
    ensures
        forall|p: ChunkPos| #[trigger]
            lines(center, r, m).contains(p) <==> (-r <= p.x - center.x < m - r && -r <= p.z
                - center.z <= r),
        lines(center, r, m).no_duplicates(),
        lines(center, r, m).len() == m * (2 * r + 1),
    decreases m,
{
    if m > 0 {
        lemma_lines(center, r, m - 1);
        let before = lines(center, r, m - 1);
        let dx = m - 1 - r;
        let last = line(center, r, dx, 2 * r + 1);
        let all = lines(center, r, m);
        assert forall|p: ChunkPos| last.contains(p) <==> (p.x - center.x == dx && -r <= p.z
            - center.z <= r) by {
            if p.x - center.x == dx && -r <= p.z - center.z <= r {
                assert(last[p.z - center.z + r] == p);
            }
        }
        assert forall|p: ChunkPos| #[trigger] all.contains(p) <==> (before.contains(p)
            || last.contains(p)) by {
            if all.contains(p) {
                let k = choose|k: int| 0 <= k < all.len() && all[k] == p;
                if k < before.len() {
                    assert(before[k] == p);
                } else {
                    assert(last[k - before.len()] == p);
                }
            }
            if before.contains(p) {
                let k = choose|k: int| 0 <= k < before.len() && before[k] == p;
                assert(all[k] == p);
            }
            if last.contains(p) {
                let k = choose|k: int| 0 <= k < last.len() && last[k] == p;
                assert(all[before.len() + k] == p);
            }
        }
        assert forall|i: int, j: int| 0 <= i < j < all.len() implies all[i] != all[j] by {
            if j < before.len() {
                assert(before[i] != before[j]);
            } else if i < before.len() {
                assert(before.contains(before[i]));
                assert(last.contains(last[j - before.len()]));
            }
        }
        assert(m * (2 * r + 1) == (m - 1) * (2 * r + 1) + (2 * r + 1)) by (nonlinear_arith);
    }
}

/// The square around a center holds each chunk up to the distance once, and no other.
pub proof fn law_square_is_the_chunks_in_sight(center: ChunkPos, r: int)
    requires
        in_world(center),
        is_distance(r),
    ensures
        square(center, r).no_duplicates(),
        forall|p: ChunkPos| #[trigger] square(center, r).contains(p) <==> distance(p, center) <= r,
        r >= 0 ==> square(center, r).len() == (2 * r + 1) * (2 * r + 1),
{
    if r >= 0 {
        lemma_lines(center, r, 2 * r + 1);
    }
}

proof fn lemma_outside(list: Seq<ChunkPos>, set: Set<u64>)
    ensures
        forall|p: ChunkPos| #[trigger]
            outside(list, set).contains(p) <==> (list.contains(p) && !set.contains(
                chunk::chunk_key(p),
            )),
        list.no_duplicates() ==> outside(list, set).no_duplicates(),
    decreases list.len(),
{
    if list.len() > 0 {
        let rest = list.drop_last();
        let last = list.last();
        lemma_outside(rest, set);
        lemma_push(rest, last);
        assert(list =~= rest.push(last));
        lemma_push(outside(rest, set), last);
    }
}

proof fn lemma_push(s: Seq<ChunkPos>, x: ChunkPos)
    ensures
        forall|p: ChunkPos| #[trigger] s.push(x).contains(p) <==> (s.contains(p) || p == x),
        s.no_duplicates() && !s.contains(x) ==> s.push(x).no_duplicates(),
        s.push(x).no_duplicates() ==> s.no_duplicates() && !s.contains(x),
{
    let t = s.push(x);
    assert forall|p: ChunkPos| #[trigger] t.contains(p) <==> (s.contains(p) || p == x) by {
        if s.contains(p) {
            let k = choose|k: int| 0 <= k < s.len() && s[k] == p;
            assert(t[k] == p);
        }
        if p == x {
            assert(t[s.len() as int] == p);
        }
    }
    if s.no_duplicates() && !s.contains(x) {
        assert forall|i: int, j: int| 0 <= i < t.len() && 0 <= j < t.len() && i != j implies t[i]
            != t[j] by {
            if i < s.len() {
                assert(s.contains(s[i]));
            }
            if j < s.len() {
                assert(s.contains(s[j]));
            }
        }
    }
    if t.no_duplicates() {
        assert forall|i: int, j: int| 0 <= i < s.len() && 0 <= j < s.len() && i != j implies s[i]
            != s[j] by {
            assert(t[i] != t[j]);
        }
        if s.contains(x) {
            let k = choose|k: int| 0 <= k < s.len() && s[k] == x;
            assert(t[k] != t[s.len() as int]);
        }
    }
}

proof fn lemma_with_keys(set: Set<u64>, list: Seq<ChunkPos>)
    ensures
        forall|p: ChunkPos|
            with_keys(set, list).contains(#[trigger] chunk::chunk_key(p)) <==> (set.contains(
                chunk::chunk_key(p),
            ) || list.contains(p)),
        forall|k: u64| #[trigger]
            with_keys(set, list).contains(k) ==> set.contains(k) || exists|p: ChunkPos|
                list.contains(p) && chunk::chunk_key(p) == k,
    decreases list.len(),
{
    if list.len() > 0 {
        let rest = list.drop_last();
        let last = list.last();
        lemma_with_keys(set, rest);
        lemma_push(rest, last);
        assert(list =~= rest.push(last));
        assert forall|p: ChunkPos|
            with_keys(set, list).contains(#[trigger] chunk::chunk_key(p)) <==> (set.contains(
                chunk::chunk_key(p),
            ) || list.contains(p)) by {
            chunk::law_chunk_key_round_trip(p, last);
        }
        assert forall|k: u64| #[trigger] with_keys(set, list).contains(k) implies set.contains(k)
            || exists|p: ChunkPos| list.contains(p) && chunk::chunk_key(p) == k by {
            if k == chunk::chunk_key(last) {
                assert(list.contains(last));
            } else {
                assert(with_keys(set, rest).contains(k));
                if !set.contains(k) {
                    let p = choose|p: ChunkPos| rest.contains(p) && chunk::chunk_key(p) == k;
                    assert(list.contains(p));
                }
            }
        }
    }
}

proof fn lemma_without_keys(set: Set<u64>, list: Seq<ChunkPos>)
    ensures
        forall|p: ChunkPos|
            without_keys(set, list).contains(#[trigger] chunk::chunk_key(p)) <==> (set.contains(
                chunk::chunk_key(p),
            ) && !list.contains(p)),
        without_keys(set, list).subset_of(set),
    decreases list.len(),
{
    if list.len() > 0 {
        let rest = list.drop_last();
        let last = list.last();
        lemma_without_keys(set, rest);
        lemma_push(rest, last);
        assert(list =~= rest.push(last));
        assert forall|p: ChunkPos|
            without_keys(set, list).contains(#[trigger] chunk::chunk_key(p)) <==> (set.contains(
                chunk::chunk_key(p),
            ) && !list.contains(p)) by {
            chunk::law_chunk_key_round_trip(p, last);
        }
    }
}

/// After an update every chunk in sight is kept, and nothing that is kept is farther away than the
/// distance and the buffer allow.
pub proof fn law_kept_chunks_follow_the_camera(
    loaded: Set<u64>,
    center: ChunkPos,
    r: int,
    buffer: int,
    unload: Seq<ChunkPos>,
    p: ChunkPos,
)
    requires
        in_world(center),
        is_distance(r),
        buffer >= 0,
        lists_far(
            unload,
            with_keys(loaded, outside(square(center, r), loaded)),
            center,
            r + buffer,
        ),
    ensures
        distance(p, center) <= r ==> without_keys(
            with_keys(loaded, outside(square(center, r), loaded)),
            unload,
        ).contains(chunk::chunk_key(p)),
        distance(p, center) > r + buffer ==> !without_keys(
            with_keys(loaded, outside(square(center, r), loaded)),
            unload,
        ).contains(chunk::chunk_key(p)),
{
    law_square_is_the_chunks_in_sight(center, r);
    lemma_outside(square(center, r), loaded);
    let all = with_keys(loaded, outside(square(center, r), loaded));
    lemma_with_keys(loaded, outside(square(center, r), loaded));
    lemma_without_keys(all, unload);
    assert(square(center, r).contains(p) <==> distance(p, center) <= r);
    assert(outside(square(center, r), loaded).contains(p) <==> (square(center, r).contains(p)
        && !loaded.contains(chunk::chunk_key(p))));
    assert(all.contains(chunk::chunk_key(p)) <==> (loaded.contains(chunk::chunk_key(p)) || outside(
        square(center, r),
        loaded,
    ).contains(p)));
    assert(unload.contains(p) <==> all.contains(chunk::chunk_key(p)) && distance(p, center) > r
        + buffer);
}

/// The chunk that holds a place in the world.
pub fn chunk_pos_of(x: i32, z: i32) -> (r: ChunkPos)
    ensures
        r.x == x as int / 16,
        r.z == z as int / 16,
        in_world(r),
{
    Position::new(x, 0, z).to_chunk_pos()
}

/// The chunks up to a distance from a center, line by line.
pub fn chunks_around(center: ChunkPos, r: i32) -> (out: Vec<ChunkPos>)
    requires
        in_world(center),
        is_distance(r as int),
    ensures
        out@ == square(center, r as int),
{
    let mut out: Vec<ChunkPos> = Vec::new();
    if r < 0 {
        return out;
    }
    let mut dx: i32 = -r;
    while dx <= r
        invariant
            in_world(center),
            0 <= r < 0x4000_0000,
            -r <= dx <= r + 1,
            out@ == lines(center, r as int, dx + r),
        decreases r + 1 - dx,
    {
        let mut dz: i32 = -r;
        let ghost before = out@;
        proof {
            assert(before + line(center, r as int, dx as int, 0) =~= before);
        }
        while dz <= r
            invariant
                in_world(center),
                0 <= r < 0x4000_0000,
                -r <= dx <= r,
                -r <= dz <= r + 1,
                out@ == before + line(center, r as int, dx as int, dz + r),
            decreases r + 1 - dz,
        {
            out.push(ChunkPos::new(center.x + dx, center.z + dz));
            dz = dz + 1;
            proof {
                assert(out@ =~= before + line(center, r as int, dx as int, dz + r));
            }
        }
        dx = dx + 1;
    }
    out
}

/// The chunks of a list whose keys are not in a set, in their order.
pub fn chunks_outside(list: &Vec<ChunkPos>, set: &HashSet<u64>) -> (out: Vec<ChunkPos>)
    ensures
        out@ == outside(list@, set@),
{
    let mut out: Vec<ChunkPos> = Vec::new();
    let mut i: usize = 0;
    proof {
        assert(list@.take(0) =~= Seq::empty());
    }
    while i < list.len()
        invariant
            i <= list@.len(),
            out@ == outside(list@.take(i as int), set@),
        decreases list@.len() - i,
    {
        let p = list[i];
        if !set.contains(&p.key()) {
            out.push(p);
        }
        proof {
            assert(list@.take(i + 1).drop_last() =~= list@.take(i as int));
        }
        i = i + 1;
    }
    proof {
        assert(list@.take(list@.len() as int) =~= list@);
    }
    out
}

/// How many chunks two chunks are apart, along the axis where they are farther apart.
pub fn chebyshev_distance(a: ChunkPos, b: ChunkPos) -> (r: i32)
    requires
        distance(a, b) <= i32::MAX,
    ensures
        r == distance(a, b),
{
    let dx: i32 = if a.x >= b.x {
        a.x - b.x
    } else {
        b.x - a.x
    };
    let dz: i32 = if a.z >= b.z {
        a.z - b.z
    } else {
        b.z - a.z
    };
    if dx > dz {
        dx
    } else {
        dz
    }
}

/// How many chunks any two chunks are apart.
fn wide_distance(a: ChunkPos, b: ChunkPos) -> (r: i64)
    ensures
        r == distance(a, b),
{
    let dx: i64 = if a.x >= b.x {
        a.x as i64 - b.x as i64
    } else {
        b.x as i64 - a.x as i64
    };
    let dz: i64 = if a.z >= b.z {
        a.z as i64 - b.z as i64
    } else {
        b.z as i64 - a.z as i64
    };
    if dx > dz {
        dx
    } else {
        dz
    }
}

/// How urgent it is to mesh a chunk that is seen from a center.
pub fn priority_for_distance(pos: ChunkPos, center: ChunkPos) -> (r: MeshPriority)
    requires
        distance(pos, center) <= i32::MAX,
    ensures
        r == priority_at(distance(pos, center)),
{
    let d: i32 = chebyshev_distance(pos, center);
    if d == 0 {
        MeshPriority::Critical
    } else if d == 1 {
        MeshPriority::High
    } else {
        MeshPriority::Medium
    }
}

/// Where a coordinate lies in its chunk: at the near side, at the far side, or inside.
pub open spec fn side(v: int) -> int {
    if v % 16 == 0 {
        -1
    } else if v % 16 == 15 {
        1
    } else {
        0
    }
}

/// The chunks whose meshes show a block: its own, and those that it borders on.
pub open spec fn affected(pos: Position) -> Seq<ChunkPos> {
    let own = chunk::chunk_of(pos);
    let sx = side(pos.x as int);
    let sz = side(pos.z as int);
    let along_x = if sx != 0 {
        seq![chunk::moved(own, sx, 0)]
    } else {
        Seq::empty()
    };
    let along_z = if sz != 0 {
        seq![chunk::moved(own, 0, sz)]
    } else {
        Seq::empty()
    };
    let corner = if sx != 0 && sz != 0 {
        seq![chunk::moved(own, sx, sz)]
    } else {
        Seq::empty()
    };
    seq![own] + along_x + along_z + corner
}

/// A chunk is affected by a block exactly when it holds the block or one of the eight blocks
/// around it at the same height.
pub proof fn law_affected_chunks_hold_the_surroundings(pos: Position, q: ChunkPos)
    ensures
        affected(pos).contains(q) <==> exists|dx: int, dz: int|
            -1 <= dx <= 1 && -1 <= dz <= 1 && q == #[trigger] chunk_beside(pos, dx, dz),
{
    let own = chunk::chunk_of(pos);
    let sx = side(pos.x as int);
    let sz = side(pos.z as int);
    let list = affected(pos);
    assert(own == chunk_beside(pos, 0, 0));
    assert forall|dx: int, dz: int| -1 <= dx <= 1 && -1 <= dz <= 1 implies #[trigger] chunk_beside(
        pos,
        dx,
        dz,
    ) == chunk::moved(
        own,
        if dx == sx {
            dx
        } else {
            0
        },
        if dz == sz {
            dz
        } else {
            0
        },
    ) by {}
    if list.contains(q) {
        let k = choose|k: int| 0 <= k < list.len() && list[k] == q;
        assert(q == chunk_beside(pos, 0, 0) || q == chunk_beside(pos, sx, 0) || q == chunk_beside(
            pos,
            0,
            sz,
        ) || q == chunk_beside(pos, sx, sz));
    }
    if exists|dx: int, dz: int|
        -1 <= dx <= 1 && -1 <= dz <= 1 && q == #[trigger] chunk_beside(pos, dx, dz) {
        let (dx, dz) = choose|dx: int, dz: int|
            -1 <= dx <= 1 && -1 <= dz <= 1 && q == #[trigger] chunk_beside(pos, dx, dz);
        let tx = dx == sx && sx != 0;
        let tz = dz == sz && sz != 0;
        assert(list[0] == own);
        if tx && tz {
            assert(list[3] == chunk::moved(own, sx, sz));
        } else if tx {
            assert(list[1] == chunk::moved(own, sx, 0));
        } else if tz {
            assert(list[if sx != 0 { 2int } else { 1int }] == chunk::moved(own, 0, sz));
        }
    }
}

/// The chunk that holds the block some steps beside a block.
pub open spec fn chunk_beside(pos: Position, dx: int, dz: int) -> ChunkPos {
    ChunkPos { x: ((pos.x + dx) / 16) as i32, z: ((pos.z + dz) / 16) as i32 }
}

/// The chunks whose meshes show a block: its own, and those that it borders on.
pub fn affected_chunks(pos: Position) -> (out: Vec<ChunkPos>)
    ensures
        out@ == affected(pos),
{
    let own = pos.to_chunk_pos();
    let local_x: i32 = pos.x - own.x * 16;
    let local_z: i32 = pos.z - own.z * 16;
    let sx: i32 = if local_x == 0 {
        -1
    } else if local_x == 15 {
        1
    } else {
        0
    };
    let sz: i32 = if local_z == 0 {
        -1
    } else if local_z == 15 {
        1
    } else {
        0
    };
    let mut out: Vec<ChunkPos> = Vec::new();
    out.push(own);
    if sx != 0 {
        out.push(ChunkPos::new(own.x + sx, own.z));
    }
    if sz != 0 {
        out.push(ChunkPos::new(own.x, own.z + sz));
    }
    if sx != 0 && sz != 0 {
        out.push(ChunkPos::new(own.x + sx, own.z + sz));
    }
    proof {
        assert(out@ =~= affected(pos));
    }
    out
}

impl ChunkLoader {
    /// The distances can be counted with.
    pub open spec fn wf(self) -> bool {
        &&& is_distance(self.render_distance as int)
        &&& 0 <= self.unload_buffer < 0x4000_0000
    }

    pub fn new(render_distance: u32) -> (r: ChunkLoader)
        ensures
            r.render_distance == chunk::wrap_i32(render_distance as int),
            r.unload_buffer == 3,
            r.loaded@ == Set::<u64>::empty(),
            r.requested@ == Set::<u64>::empty(),
            r.last_center is None,
            render_distance < 0x4000_0000 ==> r.wf(),
    {
        ChunkLoader {
            render_distance: as_signed(render_distance),
            unload_buffer: 3,
            loaded: HashSet::new(),
            last_center: None,
            requested: HashSet::new(),
        }
    }

    /// Makes the next update start afresh.
    pub fn invalidate(&mut self)
        ensures
            final(self).last_center is None,
            final(self).render_distance == old(self).render_distance,
            final(self).unload_buffer == old(self).unload_buffer,
            final(self).loaded == old(self).loaded,
            final(self).requested@ == old(self).requested@,
    {
        self.last_center = None;
    }

    /// Shows chunks up to another distance. The next update starts afresh if it is another one.
    pub fn set_render_distance(&mut self, render_distance: u32)
        ensures
            final(self).render_distance == chunk::wrap_i32(render_distance as int),
            final(self).last_center == (if final(self).render_distance == old(self).render_distance {
                old(self).last_center
            } else {
                None
            }),
            final(self).unload_buffer == old(self).unload_buffer,
            final(self).loaded == old(self).loaded,
            final(self).requested@ == old(self).requested@,
    {
        let wanted: i32 = as_signed(render_distance);
        if self.render_distance != wanted {
            self.render_distance = wanted;
            self.last_center = None;
        }
    }

    /// Notes that a chunk has come in.
    pub fn mark_loaded(&mut self, pos: ChunkPos)
        ensures
            final(self).loaded@ == old(self).loaded@.insert(chunk::chunk_key(pos)),
            final(self).requested@ == old(self).requested@.remove(chunk::chunk_key(pos)),
            final(self).last_center == old(self).last_center,
            final(self).render_distance == old(self).render_distance,
            final(self).unload_buffer == old(self).unload_buffer,
    {
        let key: u64 = pos.key();
        self.loaded.insert(key);
        self.requested.remove(&key);
    }

    /// Notes that the chunks around a center have been asked for.
    pub fn mark_requested_square(&mut self, center: ChunkPos, r: i32)
        requires
            in_world(center),
            is_distance(r as int),
        ensures
            final(self).requested@ == with_keys(old(self).requested@, square(center, r as int)),
            final(self).loaded == old(self).loaded,
            final(self).last_center == old(self).last_center,
            final(self).render_distance == old(self).render_distance,
            final(self).unload_buffer == old(self).unload_buffer,
    {
        let list = chunks_around(center, r);
        insert_all(&mut self.requested, &list);
    }

    /// Follows the camera in a world that is generated here: puts the new chunks into the meshing
    /// queue, as well as their neighbours that have to be meshed again, and says which chunks to
    /// generate and which to give up. Nothing happens while the camera stays in its chunk.
    pub fn update<F: Fn(ChunkPos) -> bool>(
        &mut self,
        center: ChunkPos,
        jobs: &mut MeshJobQueue,
        has_mesh: &F,
    ) -> (plan: Option<LoadPlan>)
        requires
            old(self).wf(),
            old(jobs).wf(),
            in_world(center),
            is_mesh_lookup(*has_mesh),
        ensures
            final(self).wf(),
            final(jobs).wf(),
            final(self).render_distance == old(self).render_distance,
            final(self).unload_buffer == old(self).unload_buffer,
            final(self).requested@ == old(self).requested@,
            final(self).last_center == Some(center),
            match plan {
                None => {
                    &&& old(self).last_center == Some(center)
                    &&& final(self).loaded == old(self).loaded
                    &&& final(jobs)@ == old(jobs)@
                },
                Some(plan) => {
                    &&& old(self).last_center != Some(center)
                    &&& plan.fresh@ == outside(
                        square(center, old(self).render_distance as int),
                        old(self).loaded@,
                    )
                    &&& lists_far(
                        plan.unload@,
                        with_keys(old(self).loaded@, plan.fresh@),
                        center,
                        old(self).render_distance + old(self).unload_buffer,
                    )
                    &&& final(self).loaded@ == without_keys(
                        with_keys(old(self).loaded@, plan.fresh@),
                        plan.unload@,
                    )
                    &&& final(jobs)@ == cancelled(
                        remeshed(
                            queued(old(jobs)@, plan.fresh@, center),
                            plan.fresh@,
                            with_keys(old(self).loaded@, plan.fresh@),
                            *has_mesh,
                        ),
                        plan.unload@,
                    )
                },
            },
    {
        if let Some(last) = self.last_center {
            if last == center {
                return None;
            }
        }
        self.last_center = Some(center);
        let ghost before = self.loaded@;
        let ghost r = self.render_distance as int;
        proof {
            law_square_is_the_chunks_in_sight(center, r);
            lemma_outside(square(center, r), before);
        }
        let in_sight = chunks_around(center, self.render_distance);
        let fresh = chunks_outside(&in_sight, &self.loaded);
        proof {
            assert forall|i: int| 0 <= i < fresh@.len() implies distance(#[trigger] fresh@[i], center)
                <= r by {
                assert(fresh@.contains(fresh@[i]));
                assert(square(center, r).contains(fresh@[i]));
            }
        }
        queue_all(jobs, &fresh, center);
        insert_all(&mut self.loaded, &fresh);
        remesh_all(jobs, &fresh, &self.loaded, has_mesh);
        let far: i32 = self.render_distance + self.unload_buffer;
        let unload = far_chunks(&self.loaded, center, far);
        remove_all(&mut self.loaded, &unload);
        cancel_all(jobs, &unload);
        Some(LoadPlan { fresh, unload })
    }

    /// Follows the camera in a world that another player keeps: says which chunks to ask for and
    /// which to give up. A chunk is asked for once.
    pub fn update_remote(&mut self, center: ChunkPos, jobs: &mut MeshJobQueue) -> (plan: Option<
        LoadPlan,
    >)
        requires
            old(self).wf(),
            old(jobs).wf(),
            in_world(center),
        ensures
            final(self).wf(),
            final(jobs).wf(),
            final(self).render_distance == old(self).render_distance,
            final(self).unload_buffer == old(self).unload_buffer,
            final(self).last_center == Some(center),
            match plan {
                None => {
                    &&& old(self).last_center == Some(center)
                    &&& final(self).loaded == old(self).loaded
                    &&& final(self).requested@ == old(self).requested@
                    &&& final(jobs)@ == old(jobs)@
                },
                Some(plan) => {
                    &&& old(self).last_center != Some(center)
                    &&& plan.fresh@ == outside(
                        outside(
                            square(center, old(self).render_distance as int),
                            old(self).loaded@,
                        ),
                        old(self).requested@,
                    )
                    &&& lists_far(
                        plan.unload@,
                        old(self).loaded@,
                        center,
                        old(self).render_distance + old(self).unload_buffer,
                    )
                    &&& final(self).loaded@ == without_keys(old(self).loaded@, plan.unload@)
                    &&& final(self).requested@ == with_keys(old(self).requested@, plan.fresh@)
                    &&& final(jobs)@ == cancelled(old(jobs)@, plan.unload@)
                },
            },
    {
        if let Some(last) = self.last_center {
            if last == center {
                return None;
            }
        }
        self.last_center = Some(center);
        let in_sight = chunks_around(center, self.render_distance);
        let missing = chunks_outside(&in_sight, &self.loaded);
        let fresh = chunks_outside(&missing, &self.requested);
        insert_all(&mut self.requested, &fresh);
        let far: i32 = self.render_distance + self.unload_buffer;
        let unload = far_chunks(&self.loaded, center, far);
        remove_all(&mut self.loaded, &unload);
        cancel_all(jobs, &unload);
        Some(LoadPlan { fresh, unload })
    }
}

/// The signed integer with the same bits.
fn as_signed(v: u32) -> (r: i32)
    ensures
        r == chunk::wrap_i32(v as int),
{
    if v > 0x7fff_ffff {
        let low: u32 = v - 0x8000_0000;
        let low: i32 = low as i32;
        low - 0x7fff_ffff - 1
    } else {
        v as i32
    }
}

fn insert_all(set: &mut HashSet<u64>, list: &Vec<ChunkPos>)
    ensures
        final(set)@ == with_keys(old(set)@, list@),
{
    let ghost before = set@;
    let mut i: usize = 0;
    proof {
        assert(list@.take(0) =~= Seq::empty());
    }
    while i < list.len()
        invariant
            i <= list@.len(),
            set@ == with_keys(before, list@.take(i as int)),
        decreases list@.len() - i,
    {
        set.insert(list[i].key());
        proof {
            assert(list@.take(i + 1).drop_last() =~= list@.take(i as int));
        }
        i = i + 1;
    }
    proof {
        assert(list@.take(list@.len() as int) =~= list@);
    }
}

fn remove_all(set: &mut HashSet<u64>, list: &Vec<ChunkPos>)
    ensures
        final(set)@ == without_keys(old(set)@, list@),
{
    let ghost before = set@;
    let mut i: usize = 0;
    proof {
        assert(list@.take(0) =~= Seq::empty());
    }
    while i < list.len()
        invariant
            i <= list@.len(),
            set@ == without_keys(before, list@.take(i as int)),
        decreases list@.len() - i,
    {
        set.remove(&list[i].key());
        proof {
            assert(list@.take(i + 1).drop_last() =~= list@.take(i as int));
        }
        i = i + 1;
    }
    proof {
        assert(list@.take(list@.len() as int) =~= list@);
    }
}

fn queue_all(jobs: &mut MeshJobQueue, list: &Vec<ChunkPos>, center: ChunkPos)
    requires
        old(jobs).wf(),
        forall|i: int| 0 <= i < list@.len() ==> distance(#[trigger] list@[i], center) <= i32::MAX,
    ensures
        final(jobs).wf(),
        final(jobs)@ == queued(old(jobs)@, list@, center),
{
    let ghost before = jobs@;
    let mut i: usize = 0;
    proof {
        assert(list@.take(0) =~= Seq::empty());
    }
    while i < list.len()
        invariant
            i <= list@.len(),
            jobs.wf(),
            jobs@ == queued(before, list@.take(i as int), center),
            forall|i: int|
                0 <= i < list@.len() ==> distance(#[trigger] list@[i], center) <= i32::MAX,
        decreases list@.len() - i,
    {
        let pos = list[i];
        jobs.enqueue(pos, priority_for_distance(pos, center));
        proof {
            assert(list@.take(i + 1).drop_last() =~= list@.take(i as int));
        }
        i = i + 1;
    }
    proof {
        assert(list@.take(list@.len() as int) =~= list@);
    }
}

fn remesh_one<F: Fn(ChunkPos) -> bool>(
    jobs: &mut MeshJobQueue,
    pos: ChunkPos,
    loaded: &HashSet<u64>,
    has_mesh: &F,
)
    requires
        old(jobs).wf(),
        is_mesh_lookup(*has_mesh),
    ensures
        final(jobs).wf(),
        final(jobs)@ == remeshed_beside(old(jobs)@, pos, 4, loaded@, *has_mesh),
{
    let ghost before = jobs@;
    let mut k: i32 = 0;
    while k < 4
        invariant
            0 <= k <= 4,
            jobs.wf(),
            is_mesh_lookup(*has_mesh),
            jobs@ == remeshed_beside(before, pos, k as int, loaded@, *has_mesh),
        decreases 4 - k,
    {
        let n = if k == 0 {
            pos.offset(1, 0)
        } else if k == 1 {
            pos.offset(-1, 0)
        } else if k == 2 {
            pos.offset(0, 1)
        } else {
            pos.offset(0, -1)
        };
        if loaded.contains(&n.key()) && has_mesh(n) {
            jobs.enqueue(n, MeshPriority::Low);
        }
        k = k + 1;
    }
}

fn remesh_all<F: Fn(ChunkPos) -> bool>(
    jobs: &mut MeshJobQueue,
    list: &Vec<ChunkPos>,
    loaded: &HashSet<u64>,
    has_mesh: &F,
)
    requires
        old(jobs).wf(),
        is_mesh_lookup(*has_mesh),
    ensures
        final(jobs).wf(),
        final(jobs)@ == remeshed(old(jobs)@, list@, loaded@, *has_mesh),
{
    let ghost before = jobs@;
    let mut i: usize = 0;
    proof {
        assert(list@.take(0) =~= Seq::empty());
    }
    while i < list.len()
        invariant
            i <= list@.len(),
            jobs.wf(),
            is_mesh_lookup(*has_mesh),
            jobs@ == remeshed(before, list@.take(i as int), loaded@, *has_mesh),
        decreases list@.len() - i,
    {
        remesh_one(jobs, list[i], loaded, has_mesh);
        proof {
            assert(list@.take(i + 1).drop_last() =~= list@.take(i as int));
        }
        i = i + 1;
    }
    proof {
        assert(list@.take(list@.len() as int) =~= list@);
    }
}

fn cancel_all(jobs: &mut MeshJobQueue, list: &Vec<ChunkPos>)
    requires
        old(jobs).wf(),
    ensures
        final(jobs).wf(),
        final(jobs)@ == cancelled(old(jobs)@, list@),
{
    let ghost before = jobs@;
    let mut i: usize = 0;
    proof {
        assert(list@.take(0) =~= Seq::empty());
    }
    while i < list.len()
        invariant
            i <= list@.len(),
            jobs.wf(),
            jobs@ == cancelled(before, list@.take(i as int)),
        decreases list@.len() - i,
    {
        jobs.cancel(list[i]);
        proof {
            assert(list@.take(i + 1).drop_last() =~= list@.take(i as int));
        }
        i = i + 1;
    }
    proof {
        assert(list@.take(list@.len() as int) =~= list@);
    }
}

/// The chunks of a set that are farther than some distance from a center, in some order.
fn far_chunks(set: &HashSet<u64>, center: ChunkPos, far: i32) -> (out: Vec<ChunkPos>)
    ensures
        lists_far(out@, set@, center, far as int),
{
    let keys = members_of(set);
    let mut out: Vec<ChunkPos> = Vec::new();
    let mut i: usize = 0;
    while i < keys.len()
        invariant
            i <= keys@.len(),
            maps::lists_set(keys@, set@),
            out@.no_duplicates(),
            forall|p: ChunkPos| #[trigger]
                out@.contains(p) <==> keys@.take(i as int).contains(chunk::chunk_key(p)) && distance(
                    p,
                    center,
                ) > far,
        decreases keys@.len() - i,
    {
        let key: u64 = keys[i];
        proof {
            assert(keys@.contains(key));
            assert(set@.contains(key));
        }
        let pos = ChunkPos::from_key(key);
        let ghost seen = keys@.take(i as int);
        proof {
            chunk::law_key_of_chunk_of_key(key);
            assert(keys@.take(i + 1) =~= seen.push(key));
            assert forall|k: u64| seen.push(key).contains(k) <==> (seen.contains(k) || k == key) by {
                if seen.contains(k) {
                    let j = choose|j: int| 0 <= j < seen.len() && seen[j] == k;
                    assert(seen.push(key)[j] == k);
                }
                if k == key {
                    assert(seen.push(key)[seen.len() as int] == k);
                }
            }
            assert(!seen.contains(key)) by {
                if seen.contains(key) {
                    let j = choose|j: int| 0 <= j < seen.len() && seen[j] == key;
                    assert(keys@[j] == keys@[i as int]);
                }
            }
            assert forall|p: ChunkPos| chunk::chunk_key(p) == key implies p == pos by {
                chunk::law_chunk_key_round_trip(p, pos);
            }
            lemma_push(out@, pos);
        }
        if wide_distance(pos, center) > far as i64 {
            out.push(pos);
        }
        i = i + 1;
    }
    proof {
        assert(keys@.take(keys@.len() as int) =~= keys@);
    }
    out
}

/// The distance of two chunks is the larger of their distances along the two axes: both lie within
/// it, and one of them reaches it. It is the same from either side, and zero only for the same
/// chunk.
pub proof fn law_distance_is_the_larger_one(a: ChunkPos, b: ChunkPos, d: int)
    ensures
        distance(a, b) <= d <==> -d <= a.x - b.x <= d && -d <= a.z - b.z <= d,
        distance(a, b) == distance(b, a),
        distance(a, b) == 0 <==> a == b,
{
}

/// The nearer a chunk is, the sooner it is meshed: the player's own first, then those around it,
/// then the rest; none of them as late as what only changes at its border.
pub proof fn law_nearer_chunks_are_meshed_sooner(near: int, far: int)
    requires
        0 <= near <= far,
    ensures
        mesh_jobs::rank(priority_at(near)) <= mesh_jobs::rank(priority_at(far)),
        priority_at(near) == MeshPriority::Critical <==> near == 0,
        priority_at(near) == MeshPriority::High <==> near == 1,
        priority_at(near) != MeshPriority::Low,
{
}

/// The chunks to be asked for are those in sight that are not there yet, each once; after they were
/// noted, exactly these are known besides those known before.
pub proof fn law_missing_chunks_are_asked_for_once(
    center: ChunkPos,
    r: int,
    known: Set<u64>,
    p: ChunkPos,
)
    requires
        in_world(center),
        is_distance(r),
    ensures
        outside(square(center, r), known).no_duplicates(),
        outside(square(center, r), known).contains(p) <==> distance(p, center) <= r
            && !known.contains(chunk::chunk_key(p)),
        with_keys(known, outside(square(center, r), known)).contains(chunk::chunk_key(p))
            <==> known.contains(chunk::chunk_key(p)) || distance(p, center) <= r,
        !outside(
            square(center, r),
            with_keys(known, outside(square(center, r), known)),
        ).contains(p),
{
    law_square_is_the_chunks_in_sight(center, r);
    let list = outside(square(center, r), known);
    lemma_outside(square(center, r), known);
    lemma_with_keys(known, list);
    lemma_outside(square(center, r), with_keys(known, list));
}

/// Forgetting chunks forgets exactly them.
pub proof fn law_forgotten_chunks_are_gone(known: Set<u64>, list: Seq<ChunkPos>, p: ChunkPos)
    ensures
        without_keys(known, list).contains(chunk::chunk_key(p)) <==> known.contains(
            chunk::chunk_key(p),
        ) && !list.contains(p),
{
    lemma_without_keys(known, list);
}

proof fn lemma_queued(v: Seq<Seq<ChunkPos>>, list: Seq<ChunkPos>, center: ChunkPos)
    requires
        mesh_jobs::is_orderly(v),
    ensures
        mesh_jobs::is_orderly(queued(v, list, center)),
        forall|i: int|
            0 <= i < list.len() ==> mesh_jobs::waits_by(
                queued(v, list, center),
                #[trigger] list[i],
                mesh_jobs::rank(priority_at(distance(list[i], center))),
            ),
        forall|q: ChunkPos, r: int|
            0 <= r < 4 && #[trigger] mesh_jobs::waits_by(v, q, r) ==> mesh_jobs::waits_by(
                queued(v, list, center),
                q,
                r,
            ),
    decreases list.len(),
{
    if list.len() > 0 {
        let rest = list.drop_last();
        let last = list.last();
        let p = priority_at(distance(last, center));
        let before = queued(v, rest, center);
        lemma_queued(v, rest, center);
        mesh_jobs::law_no_chunk_waits_twice(before, last, p);
        mesh_jobs::law_enqueue_only_hastens(before, last, p, last, 0);
        assert forall|i: int| 0 <= i < list.len() implies mesh_jobs::waits_by(
            queued(v, list, center),
            #[trigger] list[i],
            mesh_jobs::rank(priority_at(distance(list[i], center))),
        ) by {
            if i < rest.len() {
                assert(rest[i] == list[i]);
                mesh_jobs::law_enqueue_only_hastens(
                    before,
                    last,
                    p,
                    list[i],
                    mesh_jobs::rank(priority_at(distance(list[i], center))),
                );
            }
        }
        assert forall|q: ChunkPos, r: int|
            0 <= r < 4 && #[trigger] mesh_jobs::waits_by(v, q, r) implies mesh_jobs::waits_by(
            queued(v, list, center),
            q,
            r,
        ) by {
            mesh_jobs::law_enqueue_only_hastens(before, last, p, q, r);
        }
    }
}

proof fn lemma_remeshed_beside<F: Fn(ChunkPos) -> bool>(
    v: Seq<Seq<ChunkPos>>,
    pos: ChunkPos,
    k: int,
    loaded: Set<u64>,
    has_mesh: F,
)
    requires
        mesh_jobs::is_orderly(v),
    ensures
        mesh_jobs::is_orderly(remeshed_beside(v, pos, k, loaded, has_mesh)),
        forall|j: int|
            0 <= j < k && loaded.contains(chunk::chunk_key(#[trigger] beside(pos, j))) && is_meshed(
                has_mesh,
                beside(pos, j),
            ) ==> mesh_jobs::waits_by(
                remeshed_beside(v, pos, k, loaded, has_mesh),
                beside(pos, j),
                3,
            ),
        forall|q: ChunkPos, r: int|
            0 <= r < 4 && #[trigger] mesh_jobs::waits_by(v, q, r) ==> mesh_jobs::waits_by(
                remeshed_beside(v, pos, k, loaded, has_mesh),
                q,
                r,
            ),
    decreases k,
{
    if k > 0 {
        let before = remeshed_beside(v, pos, k - 1, loaded, has_mesh);
        let n = beside(pos, k - 1);
        lemma_remeshed_beside(v, pos, k - 1, loaded, has_mesh);
        mesh_jobs::law_no_chunk_waits_twice(before, n, MeshPriority::Low);
        mesh_jobs::law_enqueue_only_hastens(before, n, MeshPriority::Low, n, 0);
        assert forall|j: int|
            0 <= j < k && loaded.contains(chunk::chunk_key(#[trigger] beside(pos, j))) && is_meshed(
                has_mesh,
                beside(pos, j),
            ) implies mesh_jobs::waits_by(
            remeshed_beside(v, pos, k, loaded, has_mesh),
            beside(pos, j),
            3,
        ) by {
            mesh_jobs::law_enqueue_only_hastens(before, n, MeshPriority::Low, beside(pos, j), 3);
        }
        assert forall|q: ChunkPos, r: int|
            0 <= r < 4 && #[trigger] mesh_jobs::waits_by(v, q, r) implies mesh_jobs::waits_by(
            remeshed_beside(v, pos, k, loaded, has_mesh),
            q,
            r,
        ) by {
            mesh_jobs::law_enqueue_only_hastens(before, n, MeshPriority::Low, q, r);
        }
    }
}

proof fn lemma_remeshed<F: Fn(ChunkPos) -> bool>(
    v: Seq<Seq<ChunkPos>>,
    list: Seq<ChunkPos>,
    loaded: Set<u64>,
    has_mesh: F,
    i: int,
    j: int,
)
    requires
        mesh_jobs::is_orderly(v),
        0 <= j < 4,
    ensures
        mesh_jobs::is_orderly(remeshed(v, list, loaded, has_mesh)),
        0 <= i < list.len() && loaded.contains(chunk::chunk_key(beside(list[i], j))) && is_meshed(
            has_mesh,
            beside(list[i], j),
        ) ==> mesh_jobs::waits_by(
            remeshed(v, list, loaded, has_mesh),
            beside(list[i], j),
            3,
        ),
        forall|q: ChunkPos, r: int|
            0 <= r < 4 && #[trigger] mesh_jobs::waits_by(v, q, r) ==> mesh_jobs::waits_by(
                remeshed(v, list, loaded, has_mesh),
                q,
                r,
            ),
    decreases list.len(),
{
    if list.len() > 0 {
        let rest = list.drop_last();
        let before = remeshed(v, rest, loaded, has_mesh);
        lemma_remeshed(v, rest, loaded, has_mesh, i, j);
        lemma_remeshed_beside(before, list.last(), 4, loaded, has_mesh);
        if 0 <= i < rest.len() {
            assert(rest[i] == list[i]);
            assert(mesh_jobs::waits_by(before, beside(list[i], j), 3) ==> mesh_jobs::waits_by(
                remeshed(v, list, loaded, has_mesh),
                beside(list[i], j),
                3,
            ));
        }
    }
}

proof fn lemma_cancelled(v: Seq<Seq<ChunkPos>>, list: Seq<ChunkPos>, q: ChunkPos, r: int)
    requires
        mesh_jobs::is_orderly(v),
    ensures
        mesh_jobs::is_orderly(cancelled(v, list)),
        list.contains(q) ==> !mesh_jobs::waits_by(cancelled(v, list), q, r),
        !list.contains(q) ==> mesh_jobs::waits_by(cancelled(v, list), q, r)
            == mesh_jobs::waits_by(v, q, r),
    decreases list.len(),
{
    if list.len() > 0 {
        let rest = list.drop_last();
        let last = list.last();
        lemma_cancelled(v, rest, q, r);
        lemma_push(rest, last);
        assert(list =~= rest.push(last));
        mesh_jobs::law_no_chunk_waits_twice(cancelled(v, rest), last, MeshPriority::Low);
        mesh_jobs::law_cancelled_chunks_do_not_wait(cancelled(v, rest), last, q, r);
    }
}

/// After the camera has moved into another chunk, every chunk that has come into sight waits to be
/// meshed, no later than its distance asks for, and so does every neighbour of it that is there and
/// has a mesh to be made again; no chunk that was given up waits.
pub proof fn law_chunks_in_sight_are_meshed<F: Fn(ChunkPos) -> bool>(
    jobs: Seq<Seq<ChunkPos>>,
    center: ChunkPos,
    fresh: Seq<ChunkPos>,
    unload: Seq<ChunkPos>,
    loaded: Set<u64>,
    has_mesh: F,
    i: int,
    j: int,
    q: ChunkPos,
)
    requires
        mesh_jobs::is_orderly(jobs),
        0 <= i < fresh.len(),
        0 <= j < 4,
    ensures
        ({
            let after = cancelled(
                remeshed(queued(jobs, fresh, center), fresh, loaded, has_mesh),
                unload,
            );
            let n = beside(fresh[i], j);
            &&& !unload.contains(fresh[i]) ==> mesh_jobs::waits_by(
                after,
                fresh[i],
                mesh_jobs::rank(priority_at(distance(fresh[i], center))),
            )
            &&& loaded.contains(chunk::chunk_key(n)) && is_meshed(has_mesh, n)
                && !unload.contains(n) ==> mesh_jobs::waits(after, n)
            &&& unload.contains(q) ==> !mesh_jobs::waits(after, q)
            &&& mesh_jobs::waits(jobs, q) && !unload.contains(q) ==> mesh_jobs::waits(after, q)
        }),
{
    let a = queued(jobs, fresh, center);
    let b = remeshed(a, fresh, loaded, has_mesh);
    let r = mesh_jobs::rank(priority_at(distance(fresh[i], center)));
    lemma_queued(jobs, fresh, center);
    lemma_remeshed(a, fresh, loaded, has_mesh, i, j);
    assert(mesh_jobs::waits_by(a, fresh[i], r));
    lemma_cancelled(b, unload, fresh[i], r);
    lemma_cancelled(b, unload, beside(fresh[i], j), 3);
    lemma_cancelled(b, unload, q, 3);
}

/// The four neighbours of a chunk whose meshes it borders on are those one step away along one axis.
pub proof fn law_neighbours_share_a_border(pos: ChunkPos, q: ChunkPos)
    requires
        i32::MIN < pos.x < i32::MAX,
        i32::MIN < pos.z < i32::MAX,
    ensures
        (exists|j: int| 0 <= j < 4 && #[trigger] beside(pos, j) == q) <==> abs(q.x - pos.x) + abs(
            q.z - pos.z,
        ) == 1,
{
    assert(beside(pos, 0) == ChunkPos { x: (pos.x + 1) as i32, z: pos.z });
    assert(beside(pos, 1) == ChunkPos { x: (pos.x - 1) as i32, z: pos.z });
    assert(beside(pos, 2) == ChunkPos { x: pos.x, z: (pos.z + 1) as i32 });
    assert(beside(pos, 3) == ChunkPos { x: pos.x, z: (pos.z - 1) as i32 });
}

/// The chunks that are let go are far ones that were there, each of them once.
pub proof fn law_only_far_chunks_are_let_go(
    list: Seq<ChunkPos>,
    loaded: Set<u64>,
    center: ChunkPos,
    far: int,
    i: int,
    j: int,
)
    requires
        lists_far(list, loaded, center, far),
        0 <= i < j < list.len(),
    ensures
        list[i] != list[j],
        distance(list[i], center) > far && loaded.contains(chunk::chunk_key(list[i])),
        !list.contains(center) || far < 0,
{
    assert(list.contains(list[i]));
}

/// A chunk has a mesh when the lookup says so, whatever it is asked through.
pub proof fn law_a_lookup_tells_what_is_meshed<F: Fn(ChunkPos) -> bool>(
    has_mesh: F,
    p: ChunkPos,
    answer: bool,
)
    requires
        is_mesh_lookup(has_mesh),
        call_ensures(has_mesh, (p,), answer),
    ensures
        is_meshed(has_mesh, p) <==> answer,
        call_requires(has_mesh, (p,)),
{
}

} // verus!
