//! Chunks waiting to be meshed, by urgency.
use std::collections::{HashMap, VecDeque};

use vstd::prelude::*;

use crate::chunk;
use crate::chunk::ChunkPos;

verus! {

broadcast use vstd::std_specs::hash::group_hash_axioms;

/// How urgent it is to mesh a chunk, the most urgent first.
#[derive(Copy, Clone, Debug, PartialEq, Eq, Structural)]
pub enum MeshPriority {
    /// The chunk that the player stands in.
    Critical,
    /// A chunk next to the player.
    High,
    /// Any other chunk in sight.
    Medium,
    /// A chunk whose neighbour has changed.
    Low,
}

/// What one run over the queue has done.
#[derive(Copy, Clone, Debug, PartialEq, Eq, Structural)]
pub struct MeshRunStats {
    pub elapsed_us: u64,
    pub jobs_processed: u32,
    pub vertices_uploaded: u32,
    pub indices_uploaded: u32,
    pub phase2_vertices: u32,
}

/// The chunks waiting to be meshed: one queue for each priority, and no chunk in two places.
pub struct MeshJobQueue {
    critical: VecDeque<ChunkPos>,
    high: VecDeque<ChunkPos>,
    medium: VecDeque<ChunkPos>,
    low: VecDeque<ChunkPos>,
    pending: HashMap<u64, MeshPriority>,
}

/// The place of a priority among the four, the most urgent first.
pub open spec fn rank(p: MeshPriority) -> int {
    match p {
        MeshPriority::Critical => 0,
        MeshPriority::High => 1,
        MeshPriority::Medium => 2,
        MeshPriority::Low => 3,
    }
}

/// A queue without one chunk.
pub open spec fn without(queue: Seq<ChunkPos>, pos: ChunkPos) -> Seq<ChunkPos>
    decreases queue.len(),
{
    if queue.len() == 0 {
        queue
    } else if queue.last() == pos {
        without(queue.drop_last(), pos)
    } else {
        without(queue.drop_last(), pos).push(queue.last())
    }
}

/// Whether a chunk waits at least as urgently as a rank.
pub open spec fn waits_by(v: Seq<Seq<ChunkPos>>, pos: ChunkPos, r: int) -> bool {
    exists|i: int| 0 <= i <= r && i < v.len() && (#[trigger] v[i]).contains(pos)
}

/// Whether a chunk waits at all.
pub open spec fn waits(v: Seq<Seq<ChunkPos>>, pos: ChunkPos) -> bool {
    waits_by(v, pos, 3)
}

/// Four queues in which no chunk occurs twice.
pub open spec fn is_orderly(v: Seq<Seq<ChunkPos>>) -> bool {
    &&& v.len() == 4
    &&& forall|i: int| 0 <= i < 4 ==> (#[trigger] v[i]).no_duplicates()
    &&& forall|i: int, j: int, pos: ChunkPos|
        0 <= i < j < 4 && #[trigger] v[i].contains(pos) ==> !#[trigger] v[j].contains(pos)
}

/// The queues after a chunk was asked for: a chunk that already waits as urgently stays where it
/// is, another goes to the end of the queue of its priority.
pub open spec fn after_enqueue(v: Seq<Seq<ChunkPos>>, pos: ChunkPos, r: int) -> Seq<Seq<ChunkPos>> {
    if waits_by(v, pos, r) {
        v
    } else {
        Seq::new(
            v.len(),
            |i: int|
                if i == r {
                    v[i].push(pos)
                } else {
                    without(v[i], pos)
                },
        )
    }
}

/// The queues without one chunk.
pub open spec fn after_cancel(v: Seq<Seq<ChunkPos>>, pos: ChunkPos) -> Seq<Seq<ChunkPos>> {
    Seq::new(v.len(), |i: int| without(v[i], pos))
}

/// The first queue, in the order of urgency, that holds something; the number of queues if there
/// is none.
pub open spec fn first_busy(v: Seq<Seq<ChunkPos>>, from: int) -> int
    decreases v.len() - from,
{
    if from >= v.len() || v[from].len() > 0 {
        from
    } else {
        first_busy(v, from + 1)
    }
}

/// How many chunks wait.
pub open spec fn waiting_count(v: Seq<Seq<ChunkPos>>) -> nat {
    v[0].len() + v[1].len() + v[2].len() + v[3].len()
}

/// The chunk to mesh next: the one that has waited longest in the most urgent queue that is not
/// empty.
pub open spec fn next_job(v: Seq<Seq<ChunkPos>>) -> Option<ChunkPos> {
    let i = first_busy(v, 0);
    if i < v.len() {
        Some(v[i][0])
    } else {
        None
    }
}

/// The queues after the next chunk was taken.
pub open spec fn after_pop(v: Seq<Seq<ChunkPos>>) -> Seq<Seq<ChunkPos>> {
    let i = first_busy(v, 0);
    if i < v.len() {
        v.update(i, v[i].drop_first())
    } else {
        v
    }
}

proof fn lemma_without(queue: Seq<ChunkPos>, pos: ChunkPos)
    ensures
        forall|p: ChunkPos| #[trigger]
            without(queue, pos).contains(p) == (queue.contains(p) && p != pos),
        queue.no_duplicates() ==> without(queue, pos).no_duplicates(),
        !queue.contains(pos) ==> without(queue, pos) == queue,
    decreases queue.len(),
{
    if queue.len() > 0 {
        let rest = queue.drop_last();
        let last = queue.last();
        lemma_without(rest, pos);
        lemma_contains_push(rest, last);
        assert(queue =~= rest.push(last));
        lemma_contains_push(without(rest, pos), last);
        if queue.no_duplicates() {
            assert(!rest.contains(last)) by {
                if rest.contains(last) {
                    let k = choose|k: int| 0 <= k < rest.len() && rest[k] == last;
                    assert(queue[k] == queue[queue.len() - 1]);
                }
            }
            assert(rest.no_duplicates());
            let kept = without(rest, pos);
            assert(!kept.contains(last));
            let grown = kept.push(last);
            assert forall|i: int, j: int|
                0 <= i < grown.len() && 0 <= j < grown.len() && i != j implies grown[i]
                != grown[j] by {
                if i < kept.len() {
                    assert(kept.contains(kept[i]));
                }
                if j < kept.len() {
                    assert(kept.contains(kept[j]));
                }
            }
        }
        if !queue.contains(pos) {
            assert(queue.contains(last));
            assert(!rest.contains(pos));
        }
    }
}

proof fn lemma_contains_push(s: Seq<ChunkPos>, x: ChunkPos)
    ensures
        forall|p: ChunkPos| #[trigger] s.push(x).contains(p) == (s.contains(p) || p == x),
{
    assert forall|p: ChunkPos| #[trigger] s.push(x).contains(p) == (s.contains(p) || p == x) by {
        if s.contains(p) {
            let k = choose|k: int| 0 <= k < s.len() && s[k] == p;
            assert(s.push(x)[k] == p);
        }
        if p == x {
            assert(s.push(x)[s.len() as int] == p);
        }
    }
}

proof fn lemma_contains_drop_first(s: Seq<ChunkPos>)
    requires
        s.len() > 0,
        s.no_duplicates(),
    ensures
        forall|p: ChunkPos| #[trigger]
            s.drop_first().contains(p) == (s.contains(p) && p != s[0]),
        s.drop_first().no_duplicates(),
{
    assert forall|p: ChunkPos| #[trigger]
        s.drop_first().contains(p) == (s.contains(p) && p != s[0]) by {
        if s.drop_first().contains(p) {
            let k = choose|k: int| 0 <= k < s.drop_first().len() && s.drop_first()[k] == p;
            assert(s[k + 1] == p);
        }
        if s.contains(p) && p != s[0] {
            let k = choose|k: int| 0 <= k < s.len() && s[k] == p;
            assert(s.drop_first()[k - 1] == p);
        }
    }
}

proof fn lemma_first_busy(v: Seq<Seq<ChunkPos>>, from: int)
    requires
        0 <= from <= v.len(),
    ensures
        from <= first_busy(v, from) <= v.len(),
        first_busy(v, from) < v.len() ==> v[first_busy(v, from)].len() > 0,
        forall|i: int| from <= i < first_busy(v, from) ==> (#[trigger] v[i]).len() == 0,
    decreases v.len() - from,
{
    if from < v.len() && v[from].len() == 0 {
        lemma_first_busy(v, from + 1);
    }
}

/// No chunk ever waits in two places.
pub proof fn law_no_chunk_waits_twice(v: Seq<Seq<ChunkPos>>, pos: ChunkPos, p: MeshPriority)
    requires
        is_orderly(v),
    ensures
        is_orderly(after_enqueue(v, pos, rank(p))),
        is_orderly(after_cancel(v, pos)),
        is_orderly(after_pop(v)),
{
    let r = rank(p);
    assert forall|i: int| 0 <= i < 4 implies {
        &&& forall|q: ChunkPos| #[trigger]
            without(v[i], pos).contains(q) == (v[i].contains(q) && q != pos)
        &&& (#[trigger] without(v[i], pos)).no_duplicates()
        &&& !v[i].contains(pos) ==> without(v[i], pos) == v[i]
    } by {
        lemma_without(v[i], pos);
    }
    let w = after_enqueue(v, pos, r);
    if !waits_by(v, pos, r) {
        assert(!v[r].contains(pos));
        lemma_contains_push(v[r], pos);
        assert(w[r] == v[r].push(pos));
        assert(w[r].no_duplicates());
        assert forall|i: int| 0 <= i < 4 && i != r implies (#[trigger] w[i]) == without(
            v[i],
            pos,
        ) by {}
        assert(is_orderly(w));
    }
    let c = after_cancel(v, pos);
    assert forall|i: int| 0 <= i < 4 implies (#[trigger] c[i]) == without(v[i], pos) by {}
    assert(is_orderly(c));
    lemma_first_busy(v, 0);
    let b = first_busy(v, 0);
    if b < v.len() {
        lemma_contains_drop_first(v[b]);
        assert(is_orderly(after_pop(v)));
    }
}

/// A chunk that was asked for waits at least as urgently as asked, other chunks wait where they
/// did, and none becomes less urgent.
pub proof fn law_enqueue_only_hastens(
    v: Seq<Seq<ChunkPos>>,
    pos: ChunkPos,
    p: MeshPriority,
    other: ChunkPos,
    r: int,
)
    requires
        is_orderly(v),
        0 <= r < 4,
    ensures
        waits_by(after_enqueue(v, pos, rank(p)), pos, rank(p)),
        other != pos ==> after_enqueue(v, pos, rank(p))[r].contains(other) == v[r].contains(other),
        waits_by(v, other, r) ==> waits_by(after_enqueue(v, pos, rank(p)), other, r),
{
    let k = rank(p);
    let w = after_enqueue(v, pos, k);
    if !waits_by(v, pos, k) {
        lemma_contains_push(v[k], pos);
        assert(w[k].contains(pos));
        assert(waits_by(w, pos, k));
        assert forall|i: int| 0 <= i < 4 && other != pos implies #[trigger] w[i].contains(other)
            == v[i].contains(other) by {
            lemma_without(v[i], pos);
        }
        if waits_by(v, other, r) {
            if other == pos {
                assert(k < r) by {
                    if r <= k {
                        let i = choose|i: int|
                            0 <= i <= r && i < v.len() && (#[trigger] v[i]).contains(other);
                        assert(v[i].contains(pos));
                    }
                }
                assert(w[k].contains(other));
            } else {
                let i = choose|i: int|
                    0 <= i <= r && i < v.len() && (#[trigger] v[i]).contains(other);
                assert(w[i].contains(other));
            }
        }
    }
}

/// The chunk that is taken is at least as urgent as every other, and no longer waits.
pub proof fn law_the_most_urgent_goes_first(v: Seq<Seq<ChunkPos>>)
    requires
        is_orderly(v),
    ensures
        match next_job(v) {
            Some(pos) => {
                &&& waits(v, pos)
                &&& !waits(after_pop(v), pos)
                &&& forall|other: ChunkPos, r: int|
                    #[trigger] waits_by(v, other, r) ==> waits_by(v, pos, r)
            },
            None => forall|other: ChunkPos| !#[trigger] waits(v, other),
        },
{
    lemma_first_busy(v, 0);
    let b = first_busy(v, 0);
    if b < 4 {
        let pos = v[b][0];
        assert(v[b].contains(pos));
        lemma_contains_drop_first(v[b]);
        let w = after_pop(v);
        assert(!waits(w, pos)) by {
            if waits(w, pos) {
                let i = choose|i: int|
                    0 <= i <= 3 && i < w.len() && (#[trigger] w[i]).contains(pos);
                if i == b {
                    assert(w[b] == v[b].drop_first());
                } else {
                    assert(v[i].contains(pos));
                    assert(v[b].contains(pos));
                }
            }
        }
        assert forall|other: ChunkPos, r: int| #[trigger] waits_by(v, other, r) implies waits_by(
            v,
            pos,
            r,
        ) by {
            let i = choose|i: int|
                0 <= i <= r && i < v.len() && (#[trigger] v[i]).contains(other);
            assert(b <= i) by {
                if i < b {
                    assert(v[i].len() == 0);
                }
            }
            assert(v[b].contains(pos));
        }
    } else {
        assert forall|other: ChunkPos| !#[trigger] waits(v, other) by {
            if waits(v, other) {
                let i = choose|i: int|
                    0 <= i <= 3 && i < v.len() && (#[trigger] v[i]).contains(other);
                assert(v[i].len() == 0);
            }
        }
    }
}

/// Asking twice for the same chunk is asking once.
pub proof fn law_asking_twice_is_asking_once(v: Seq<Seq<ChunkPos>>, pos: ChunkPos, p: MeshPriority)
    requires
        is_orderly(v),
    ensures
        after_enqueue(after_enqueue(v, pos, rank(p)), pos, rank(p)) == after_enqueue(
            v,
            pos,
            rank(p),
        ),
{
    law_enqueue_only_hastens(v, pos, p, pos, rank(p));
}

/// The queue without one chunk.
fn strip(queue: &mut VecDeque<ChunkPos>, pos: ChunkPos)
    ensures
        final(queue)@ == without(old(queue)@, pos),
{
    let ghost all = queue@;
    let mut kept: VecDeque<ChunkPos> = VecDeque::new();
    let mut more = true;
    let ghost mut done: int = 0;
    proof {
        assert(all.skip(0) =~= all);
        assert(all.take(0) =~= Seq::empty());
    }
    while more
        invariant
            0 <= done <= all.len(),
            queue@ == all.skip(done),
            kept@ == without(all.take(done), pos),
            !more ==> done == all.len(),
        decreases all.len() - done + (if more { 1int } else { 0int }),
    {
        match queue.pop_front() {
            Some(p) => {
                proof {
                    let next = all.take(done + 1);
                    assert(next.drop_last() =~= all.take(done));
                    assert(next.last() == p);
                    assert(queue@ =~= all.skip(done + 1));
                    done = done + 1;
                }
                if p != pos {
                    kept.push_back(p);
                }
            },
            None => {
                more = false;
            },
        }
    }
    proof {
        assert(all.take(all.len() as int) =~= all);
    }
    *queue = kept;
}

impl MeshPriority {
    /// The place of the priority among the four, the most urgent first.
    pub fn rank(self) -> (r: usize)
        ensures
            r == rank(self),
            r < 4,
    {
        match self {
            MeshPriority::Critical => 0,
            MeshPriority::High => 1,
            MeshPriority::Medium => 2,
            MeshPriority::Low => 3,
        }
    }
}

/// A count after something was added to it; it stops at the largest number.
pub open spec fn capped_sum(a: u32, b: u32) -> u32 {
    if a + b > u32::MAX {
        u32::MAX
    } else {
        (a + b) as u32
    }
}

impl MeshRunStats {
    /// A run that has done nothing yet.
    pub fn new() -> (r: MeshRunStats)
        ensures
            r == (MeshRunStats {
                elapsed_us: 0,
                jobs_processed: 0,
                vertices_uploaded: 0,
                indices_uploaded: 0,
                phase2_vertices: 0,
            }),
    {
        MeshRunStats {
            elapsed_us: 0,
            jobs_processed: 0,
            vertices_uploaded: 0,
            indices_uploaded: 0,
            phase2_vertices: 0,
        }
    }

    /// Counts a mesh that was made and handed to the renderer.
    pub fn record(&mut self, vertices: u32, indices: u32, phase2_vertices: u32)
        ensures
            *final(self) == (MeshRunStats {
                elapsed_us: old(self).elapsed_us,
                jobs_processed: capped_sum(old(self).jobs_processed, 1),
                vertices_uploaded: capped_sum(old(self).vertices_uploaded, vertices),
                indices_uploaded: capped_sum(old(self).indices_uploaded, indices),
                phase2_vertices: capped_sum(old(self).phase2_vertices, phase2_vertices),
            }),
    {
        self.jobs_processed = self.jobs_processed.saturating_add(1);
        self.vertices_uploaded = self.vertices_uploaded.saturating_add(vertices);
        self.indices_uploaded = self.indices_uploaded.saturating_add(indices);
        self.phase2_vertices = self.phase2_vertices.saturating_add(phase2_vertices);
    }
}

impl View for MeshJobQueue {
    type V = Seq<Seq<ChunkPos>>;

    closed spec fn view(&self) -> Seq<Seq<ChunkPos>> {
        seq![self.critical@, self.high@, self.medium@, self.low@]
    }
}

impl MeshJobQueue {
    /// No chunk waits twice, and the priority of each waiting chunk is on record.
    pub closed spec fn wf(self) -> bool {
        &&& is_orderly(self@)
        &&& forall|pos: ChunkPos, i: int|
            0 <= i < 4 ==> (#[trigger] self@[i].contains(pos) <==> (
            self.pending@.contains_key(chunk::chunk_key(pos)) && rank(
                self.pending@[chunk::chunk_key(pos)],
            ) == i))
        &&& forall|key: u64| #[trigger]
            self.pending@.contains_key(key) ==> exists|pos: ChunkPos| chunk::chunk_key(pos) == key
    }

    /// No well-formed queue holds a chunk twice, at one priority or at two.
    pub proof fn law_queues_are_orderly(self)
        requires
            self.wf(),
        ensures
            is_orderly(self@),
    {
    }

    /// Nothing waits.
    pub fn new() -> (r: MeshJobQueue)
        ensures
            r.wf(),
            r@ == Seq::new(4, |i: int| Seq::<ChunkPos>::empty()),
    {
        let r = MeshJobQueue {
            critical: VecDeque::new(),
            high: VecDeque::new(),
            medium: VecDeque::new(),
            low: VecDeque::new(),
            pending: HashMap::new(),
        };
        proof {
            assert(r@ =~= Seq::new(4, |i: int| Seq::<ChunkPos>::empty()));
        }
        r
    }

    fn strip_at(&mut self, priority: MeshPriority, pos: ChunkPos)
        ensures
            final(self)@ == old(self)@.update(
                rank(priority),
                without(old(self)@[rank(priority)], pos),
            ),
            final(self).pending@ == old(self).pending@,
    {
        match priority {
            MeshPriority::Critical => strip(&mut self.critical, pos),
            MeshPriority::High => strip(&mut self.high, pos),
            MeshPriority::Medium => strip(&mut self.medium, pos),
            MeshPriority::Low => strip(&mut self.low, pos),
        }
        proof {
            assert(self@ =~= old(self)@.update(
                rank(priority),
                without(old(self)@[rank(priority)], pos),
            ));
        }
    }

    fn push_at(&mut self, priority: MeshPriority, pos: ChunkPos)
        ensures
            final(self)@ == old(self)@.update(rank(priority), old(self)@[rank(priority)].push(pos)),
            final(self).pending@ == old(self).pending@,
    {
        match priority {
            MeshPriority::Critical => self.critical.push_back(pos),
            MeshPriority::High => self.high.push_back(pos),
            MeshPriority::Medium => self.medium.push_back(pos),
            MeshPriority::Low => self.low.push_back(pos),
        }
        proof {
            assert(self@ =~= old(self)@.update(
                rank(priority),
                old(self)@[rank(priority)].push(pos),
            ));
        }
    }

    /// Asks for a chunk to be meshed. One that already waits can only become more urgent.
    pub fn enqueue(&mut self, pos: ChunkPos, priority: MeshPriority)
        requires
            old(self).wf(),
        ensures
            final(self).wf(),
            final(self)@ == after_enqueue(old(self)@, pos, rank(priority)),
    {
        let ghost before = self@;
        let ghost before_pending = self.pending@;
        let key: u64 = pos.key();
        let known = match self.pending.get(&key) {
            Some(p) => Some(*p),
            None => None,
        };
        proof {
            assert forall|i: int| 0 <= i < 4 implies forall|q: ChunkPos| #[trigger]
                without(#[trigger] before[i], pos).contains(q) == (before[i].contains(q) && q
                    != pos) by {
                lemma_without(before[i], pos);
            }
            assert forall|i: int| 0 <= i < 4 && !before[i].contains(pos) implies #[trigger] without(
                before[i],
                pos,
            ) == before[i] by {
                lemma_without(before[i], pos);
            }
            lemma_contains_push(before[rank(priority)], pos);
        }
        match known {
            Some(at) => {
                if priority.rank() < at.rank() {
                    self.strip_at(at, pos);
                    self.pending.insert(key, priority);
                    self.push_at(priority, pos);
                    proof {
                        assert(before[rank(at)].contains(pos));
                        assert(!waits_by(before, pos, rank(priority)));
                        assert(self@ =~= after_enqueue(before, pos, rank(priority)));
                        self.lemma_enqueued(before, before_pending, pos, priority);
                    }
                } else {
                    proof {
                        assert(before[rank(at)].contains(pos));
                        assert(waits_by(before, pos, rank(priority)));
                    }
                }
            },
            None => {
                self.pending.insert(key, priority);
                self.push_at(priority, pos);
                proof {
                    assert(!waits_by(before, pos, rank(priority)));
                    assert(self@ =~= after_enqueue(before, pos, rank(priority)));
                    self.lemma_enqueued(before, before_pending, pos, priority);
                }
            },
        }
    }

    proof fn lemma_enqueued(
        self,
        before: Seq<Seq<ChunkPos>>,
        before_pending: Map<u64, MeshPriority>,
        pos: ChunkPos,
        priority: MeshPriority,
    )
        requires
            is_orderly(before),
            forall|p: ChunkPos, i: int|
                0 <= i < 4 ==> (#[trigger] before[i].contains(p) <==> (before_pending.contains_key(
                    chunk::chunk_key(p),
                ) && rank(before_pending[chunk::chunk_key(p)]) == i)),
            forall|key: u64| #[trigger]
                before_pending.contains_key(key) ==> exists|p: ChunkPos|
                    chunk::chunk_key(p) == key,
            !waits_by(before, pos, rank(priority)),
            self@ == after_enqueue(before, pos, rank(priority)),
            self.pending@ == before_pending.insert(chunk::chunk_key(pos), priority),
        ensures
            self.wf(),
    {
        law_no_chunk_waits_twice(before, pos, priority);
        let r = rank(priority);
        lemma_contains_push(before[r], pos);
        assert forall|p: ChunkPos, i: int| 0 <= i < 4 implies (#[trigger] self@[i].contains(p) <==> (
        self.pending@.contains_key(chunk::chunk_key(p)) && rank(
            self.pending@[chunk::chunk_key(p)],
        ) == i)) by {
            lemma_without(before[i], pos);
            chunk::law_chunk_key_round_trip(p, pos);
            assert(before[i].contains(p) <==> (before_pending.contains_key(chunk::chunk_key(p))
                && rank(before_pending[chunk::chunk_key(p)]) == i));
        }
        assert forall|key: u64| #[trigger] self.pending@.contains_key(key) implies exists|
            p: ChunkPos,
        | chunk::chunk_key(p) == key by {
            if key == chunk::chunk_key(pos) {
            } else {
                assert(before_pending.contains_key(key));
            }
        }
    }

    /// Takes a chunk out of the queues.
    pub fn cancel(&mut self, pos: ChunkPos)
        requires
            old(self).wf(),
        ensures
            final(self).wf(),
            final(self)@ == after_cancel(old(self)@, pos),
    {
        let ghost before = self@;
        let ghost before_pending = self.pending@;
        let key: u64 = pos.key();
        proof {
            assert forall|i: int| 0 <= i < 4 && !before[i].contains(pos) implies #[trigger] without(
                before[i],
                pos,
            ) == before[i] by {
                lemma_without(before[i], pos);
            }
        }
        if self.pending.remove(&key).is_some() {
            strip(&mut self.critical, pos);
            strip(&mut self.high, pos);
            strip(&mut self.medium, pos);
            strip(&mut self.low, pos);
            proof {
                assert(self@ =~= after_cancel(before, pos));
                law_no_chunk_waits_twice(before, pos, MeshPriority::Low);
                assert forall|p: ChunkPos, i: int| 0 <= i < 4 implies (#[trigger] self@[i].contains(
                    p,
                ) <==> (self.pending@.contains_key(chunk::chunk_key(p)) && rank(
                    self.pending@[chunk::chunk_key(p)],
                ) == i)) by {
                    lemma_without(before[i], pos);
                    chunk::law_chunk_key_round_trip(p, pos);
                    assert(before[i].contains(p) <==> (before_pending.contains_key(
                        chunk::chunk_key(p),
                    ) && rank(before_pending[chunk::chunk_key(p)]) == i));
                }
                assert forall|k: u64| #[trigger] self.pending@.contains_key(k) implies exists|
                    p: ChunkPos,
                | chunk::chunk_key(p) == k by {
                    assert(before_pending.contains_key(k));
                }
            }
        } else {
            proof {
                assert forall|i: int| 0 <= i < 4 implies !(#[trigger] before[i]).contains(pos) by {}
                assert(after_cancel(before, pos) =~= before);
                assert(self.pending@ =~= before_pending);
            }
        }
    }

    /// Takes the chunk to mesh next.
    pub fn pop_highest(&mut self) -> (r: Option<ChunkPos>)
        requires
            old(self).wf(),
        ensures
            final(self).wf(),
            r == next_job(old(self)@),
            final(self)@ == after_pop(old(self)@),
    {
        let ghost before = self@;
        let ghost before_pending = self.pending@;
        proof {
            reveal_with_fuel(first_busy, 5);
            lemma_first_busy(before, 0);
        }
        let taken = match self.critical.pop_front() {
            Some(pos) => Some(pos),
            None => match self.high.pop_front() {
                Some(pos) => Some(pos),
                None => match self.medium.pop_front() {
                    Some(pos) => Some(pos),
                    None => self.low.pop_front(),
                },
            },
        };
        proof {
            assert(self@ =~= after_pop(before));
        }
        if let Some(pos) = taken {
            self.pending.remove(&pos.key());
            proof {
                let b = first_busy(before, 0);
                law_no_chunk_waits_twice(before, pos, MeshPriority::Low);
                lemma_contains_drop_first(before[b]);
                assert(before[b].contains(pos));
                assert forall|p: ChunkPos, i: int| 0 <= i < 4 implies (#[trigger] self@[i].contains(
                    p,
                ) <==> (self.pending@.contains_key(chunk::chunk_key(p)) && rank(
                    self.pending@[chunk::chunk_key(p)],
                ) == i)) by {
                    chunk::law_chunk_key_round_trip(p, pos);
                    assert(before[i].contains(p) <==> (before_pending.contains_key(
                        chunk::chunk_key(p),
                    ) && rank(before_pending[chunk::chunk_key(p)]) == i));
                }
                assert forall|k: u64| #[trigger] self.pending@.contains_key(k) implies exists|
                    p: ChunkPos,
                | chunk::chunk_key(p) == k by {
                    assert(before_pending.contains_key(k));
                }
            }
        }
        taken
    }

    /// Takes the chunk to mesh next, unless the time for this run is used up.
    pub fn pop_within_budget(&mut self, elapsed_us: u64, budget_us: u64) -> (r: Option<ChunkPos>)
        requires
            old(self).wf(),
        ensures
            final(self).wf(),
            elapsed_us >= budget_us ==> r is None && final(self)@ == old(self)@,
            elapsed_us < budget_us ==> r == next_job(old(self)@) && final(self)@ == after_pop(
                old(self)@,
            ),
    {
        if elapsed_us >= budget_us {
            return None;
        }
        self.pop_highest()
    }

    /// How many chunks wait.
    pub fn len(&self) -> (r: usize)
        requires
            self.wf(),
        ensures
            r == waiting_count(self@),
    {
        proof {
            self.lemma_count();
        }
        self.pending.len()
    }

    proof fn lemma_count(self)
        requires
            self.wf(),
        ensures
            self.pending@.dom().len() == waiting_count(self@),
    {
        let v = self@;
        let all = v[0] + v[1] + v[2] + v[3];
        let keys = Seq::new(all.len(), |i: int| chunk::chunk_key(all[i]));
        assert forall|i: int| 0 <= i < all.len() implies waits(v, #[trigger] all[i]) by {
            let a = v[0].len();
            let b = a + v[1].len();
            let c = b + v[2].len();
            if i < a {
                assert(v[0][i] == all[i]);
                assert(v[0].contains(all[i]));
            } else if i < b {
                assert(v[1][i - a] == all[i]);
                assert(v[1].contains(all[i]));
            } else if i < c {
                assert(v[2][i - b] == all[i]);
                assert(v[2].contains(all[i]));
            } else {
                assert(v[3][i - c] == all[i]);
                assert(v[3].contains(all[i]));
            }
        }
        assert forall|i: int, j: int| 0 <= i < j < all.len() implies all[i] != all[j] by {
            let a = v[0].len();
            let b = a + v[1].len();
            let c = b + v[2].len();
            let qi = if i < a { 0int } else if i < b { 1 } else if i < c { 2 } else { 3 };
            let qj = if j < a { 0int } else if j < b { 1 } else if j < c { 2 } else { 3 };
            let oi = if i < a { i } else if i < b { i - a } else if i < c { i - b } else { i - c };
            let oj = if j < a { j } else if j < b { j - a } else if j < c { j - b } else { j - c };
            assert(v[qi][oi] == all[i]);
            assert(v[qj][oj] == all[j]);
            assert(v[qi].contains(all[i]));
            assert(v[qj].contains(all[j]));
            assert(qi <= qj);
            if qi == qj {
                assert(v[qi].no_duplicates());
                assert(oi != oj);
            }
        }
        assert forall|i: int, j: int|
            0 <= i < keys.len() && 0 <= j < keys.len() && i != j implies keys[i] != keys[j] by {
            chunk::law_chunk_key_round_trip(all[i], all[j]);
        }
        assert(keys.no_duplicates());
        keys.unique_seq_to_set();
        assert forall|k: u64| #[trigger] keys.to_set().contains(k)
            == self.pending@.dom().contains(k) by {
            if keys.to_set().contains(k) {
                let i = choose|i: int| 0 <= i < keys.len() && keys[i] == k;
                let p = all[i];
                assert(waits(v, p));
                let q = choose|q: int| 0 <= q <= 3 && q < v.len() && (#[trigger] v[q]).contains(p);
                assert(self@[q].contains(p));
            }
            if self.pending@.dom().contains(k) {
                let p = choose|p: ChunkPos| chunk::chunk_key(p) == k;
                let q = rank(self.pending@[k]);
                assert(self@[q].contains(p));
                let o = choose|o: int| 0 <= o < v[q].len() && v[q][o] == p;
                let at = if q == 0 {
                    o
                } else if q == 1 {
                    v[0].len() + o
                } else if q == 2 {
                    v[0].len() + v[1].len() + o
                } else {
                    v[0].len() + v[1].len() + v[2].len() + o
                };
                assert(all[at] == p);
                assert(keys[at] == k);
                assert(keys.contains(k));
            }
        }
        assert(keys.to_set() =~= self.pending@.dom());
    }

    pub fn is_empty(&self) -> (r: bool)
        requires
            self.wf(),
        ensures
            r == (waiting_count(self@) == 0),
    {
        self.len() == 0
    }
}

/// Chunks of the same urgency are meshed in the order in which they were asked for: a new one waits
/// behind the others, and the one that is taken stood in front. The others keep their places.
pub proof fn law_equally_urgent_chunks_go_in_turn(
    v: Seq<Seq<ChunkPos>>,
    pos: ChunkPos,
    p: MeshPriority,
    i: int,
)
    requires
        is_orderly(v),
        0 <= i < 4,
    ensures
        !waits(v, pos) ==> after_enqueue(v, pos, rank(p))[i] == (if i == rank(p) {
            v[i].push(pos)
        } else {
            v[i]
        }),
        match next_job(v) {
            Some(next) => {
                &&& waits_by(v, next, i) && (forall|k: int| 0 <= k < i ==> (#[trigger] v[k]).len()
                    == 0) ==> seq![next] + after_pop(v)[i] == v[i]
                &&& !v[i].contains(next) ==> after_pop(v)[i] == v[i]
            },
            None => v[i].len() == 0 && after_pop(v) == v,
        },
{
    lemma_without(v[i], pos);
    lemma_first_busy(v, 0);
    if !waits(v, pos) {
        assert(!waits_by(v, pos, rank(p))) by {
            if waits_by(v, pos, rank(p)) {
                let k = choose|k: int| 0 <= k <= rank(p) && k < v.len() && (#[trigger] v[k]).contains(
                    pos,
                );
                assert(v[k].contains(pos));
            }
        }
        assert(!v[i].contains(pos));
    }
    let b = first_busy(v, 0);
    if b < v.len() {
        assert(v[b].contains(v[b][0]));
        if waits_by(v, v[b][0], i) && (forall|k: int| 0 <= k < i ==> (#[trigger] v[k]).len() == 0) {
            let k = choose|k: int| 0 <= k <= i && k < v.len() && (#[trigger] v[k]).contains(v[b][0]);
            assert(k == i);
            if b < i {
                assert(v[b].len() == 0);
            }
            if b > i {
                assert(v[i].len() == 0);
            }
            assert(seq![v[b][0]] + v[b].drop_first() =~= v[b]);
        }
    }
}

/// What is cancelled waits nowhere, and no other chunk waits otherwise than before.
pub proof fn law_cancelled_chunks_do_not_wait(
    v: Seq<Seq<ChunkPos>>,
    pos: ChunkPos,
    other: ChunkPos,
    r: int,
)
    requires
        is_orderly(v),
    ensures
        !waits_by(after_cancel(v, pos), pos, r),
        other != pos ==> waits_by(after_cancel(v, pos), other, r) == waits_by(v, other, r),
{
    assert forall|i: int| 0 <= i < 4 implies {
        &&& !(#[trigger] after_cancel(v, pos)[i]).contains(pos)
        &&& other != pos ==> after_cancel(v, pos)[i].contains(other) == v[i].contains(other)
    } by {
        lemma_without(v[i], pos);
    }
    if waits_by(v, other, r) {
        let i = choose|i: int| 0 <= i <= r && i < v.len() && (#[trigger] v[i]).contains(other);
        assert(after_cancel(v, pos)[i].contains(other) || other == pos);
    }
    if other != pos && waits_by(after_cancel(v, pos), other, r) {
        let i = choose|i: int|
            0 <= i <= r && i < v.len() && (#[trigger] after_cancel(v, pos)[i]).contains(other);
        assert(v[i].contains(other));
    }
}

/// The priorities are in the order of their urgency, no two alike.
pub proof fn law_priorities_are_ordered()
    ensures
        rank(MeshPriority::Critical) < rank(MeshPriority::High),
        rank(MeshPriority::High) < rank(MeshPriority::Medium),
        rank(MeshPriority::Medium) < rank(MeshPriority::Low),
{
}

/// Asking for a chunk that does not wait adds one to those that wait, taking one removes one, and
/// nobody waits exactly when the count is zero.
pub proof fn law_waiting_chunks_are_counted(v: Seq<Seq<ChunkPos>>, pos: ChunkPos, p: MeshPriority)
    requires
        is_orderly(v),
    ensures
        !waits(v, pos) ==> waiting_count(after_enqueue(v, pos, rank(p))) == waiting_count(v) + 1,
        next_job(v) is Some ==> waiting_count(after_pop(v)) + 1 == waiting_count(v),
        next_job(v) is None <==> waiting_count(v) == 0,
        waits(v, pos) ==> waiting_count(v) > 0,
{
    law_equally_urgent_chunks_go_in_turn(v, pos, p, 0);
    law_equally_urgent_chunks_go_in_turn(v, pos, p, 1);
    law_equally_urgent_chunks_go_in_turn(v, pos, p, 2);
    law_equally_urgent_chunks_go_in_turn(v, pos, p, 3);
    lemma_first_busy(v, 0);
    let b = first_busy(v, 0);
    if waits(v, pos) {
        let i = choose|i: int| 0 <= i <= 3 && i < v.len() && (#[trigger] v[i]).contains(pos);
        assert(v[i].len() > 0);
        assert(i == 0 || i == 1 || i == 2 || i == 3);
    }
    assert(b == 0 || b == 1 || b == 2 || b == 3 || b == 4);
    if b < 4 {
        assert(v[b].len() > 0);
    } else {
        assert(v[0].len() == 0 && v[1].len() == 0 && v[2].len() == 0 && v[3].len() == 0);
    }
}

/// A count grows by what is added, as far as it can.
pub proof fn law_counts_stop_at_the_largest(a: u32, b: u32)
    ensures
        capped_sum(a, b) >= a,
        capped_sum(a, b) >= b,
        capped_sum(a, b) == a + b || capped_sum(a, b) == u32::MAX && a + b > u32::MAX,
{
}

} // verus!
