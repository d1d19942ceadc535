//! What is kept on disk of a world, when its changes are written, and which of its chunks are read
//! back.
use std::collections::{HashMap, HashSet};

use vstd::prelude::*;

use crate::app_state::GameMode;
use crate::chunk;
use crate::chunk::ChunkPos;
use crate::chunk_loader;
use crate::chunk_loader::chunks_around;
use crate::mesh_jobs;
use crate::mesh_jobs::{MeshJobQueue, MeshPriority};
use crate::storage::QuotaInfo;
use crate::text;

verus! {

broadcast use vstd::std_specs::hash::group_hash_axioms;

/// How long the client waits between two rounds of writing, in microseconds.
pub const AUTO_SAVE_INTERVAL_US: u64 = 3_000_000;

/// How many chunks are written in a round.
pub const AUTO_SAVE_BATCH_CHUNKS: usize = 4;

/// How many chunks are written in a round that the player has asked for.
pub const SAVE_NOW_BATCH_CHUNKS: usize = 16;

/// How far around the spawn point chunks are read back when a world is opened.
pub const SPAWN_READ_DISTANCE: i32 = 4;

/// What is known of the saved world. Chunks are given by their keys.
pub struct SaveState {
    pub known_persisted: HashSet<u64>,
    /// Chunks that have been read back, or written.
    pub loaded_persisted_chunks: HashSet<u64>,
    /// Chunks that are being read back.
    pub pending_persisted_loads: HashSet<u64>,
    pub current_world_bytes: u64,
    pub other_worlds_bytes: u64,
    pub persisted_chunk_sizes: HashMap<u64, u64>,
    pub save_now_requested: bool,
    pub last_persist_us: u64,
    pub quota: Option<QuotaInfo>,
    pub storage_error: Option<String>,
}

/// What is known of the saved world, as mathematics.
#[verifier::ext_equal]
pub struct SaveView {
    pub known: Set<u64>,
    pub loaded: Set<u64>,
    pub pending: Set<u64>,
    pub bytes: u64,
    pub other_bytes: u64,
    pub sizes: Map<u64, u64>,
    pub save_now: bool,
    pub last_us: u64,
    pub quota: Option<QuotaInfo>,
    pub error: Option<Seq<char>>,
}

/// A note about saving.
#[derive(Copy, Clone, Debug, PartialEq, Eq, Structural)]
pub enum SaveNote {
    SavedByHost,
    Unavailable,
    Complete,
    WillRetry,
}

/// What a round of writing begins with.
#[derive(Copy, Clone, Debug, PartialEq, Eq, Structural)]
pub enum PumpStep {
    Idle,
    Notify { note: SaveNote },
    /// Take up to so many changed chunks.
    TakeBatch { limit: usize, save_now: bool },
}

/// What has become of reading back a chunk.
#[derive(Copy, Clone, Debug, PartialEq, Eq, Structural)]
pub enum LoadOutcome {
    Found,
    /// The chunk could not be read, or what was read is no chunk.
    Broken,
    Missing,
}

/// The words of a note.
pub open spec fn note_words(note: SaveNote) -> Seq<char> {
    match note {
        SaveNote::SavedByHost => "Remote worlds are saved by the host"@,
        SaveNote::Unavailable => "Save unavailable"@,
        SaveNote::Complete => "Save complete"@,
        SaveNote::WillRetry => "Save will retry soon"@,
    }
}

/// Whether it is time to write: the player has asked for it, or enough time has passed. A guest
/// never writes.
pub open spec fn is_due(v: SaveView, mode: GameMode, now_us: u64) -> bool {
    mode != GameMode::Remote && (v.save_now || now_us - v.last_us >= AUTO_SAVE_INTERVAL_US)
}

/// How a round of writing begins.
pub open spec fn pump_begins(
    v: SaveView,
    mode: GameMode,
    now_us: u64,
    has_storage: bool,
    in_flight: usize,
    should_flush: bool,
) -> PumpStep {
    if !is_due(v, mode, now_us) {
        if v.save_now {
            PumpStep::Notify { note: SaveNote::SavedByHost }
        } else {
            PumpStep::Idle
        }
    } else if !has_storage {
        if v.save_now {
            PumpStep::Notify { note: SaveNote::Unavailable }
        } else {
            PumpStep::Idle
        }
    } else if in_flight > 0 || (!v.save_now && !should_flush) {
        PumpStep::Idle
    } else {
        PumpStep::TakeBatch {
            limit: if v.save_now {
                SAVE_NOW_BATCH_CHUNKS
            } else {
                AUTO_SAVE_BATCH_CHUNKS
            },
            save_now: v.save_now,
        }
    }
}

/// What comes of a round that found nothing to write: the state after it, and the note to show.
pub open spec fn nothing_outcome(v: SaveView, dirty: usize, in_flight: usize) -> (
    SaveView,
    Option<SaveNote>,
) {
    let note = if !v.save_now || in_flight > 0 {
        None
    } else if dirty == 0 {
        Some(SaveNote::Complete)
    } else {
        Some(SaveNote::WillRetry)
    };
    (SaveView { save_now: v.save_now && note is None, ..v }, note)
}

/// What comes of a round that was written: the state after it, and whether saving is complete.
pub open spec fn round_outcome(
    v: SaveView,
    current: bool,
    list: Seq<(ChunkPos, u64)>,
    quota: Option<QuotaInfo>,
    save_now: bool,
    dirty: usize,
    in_flight: usize,
) -> (SaveView, bool) {
    let complete = save_now && dirty == 0 && in_flight == 0;
    (
        if current {
            SaveView { save_now: v.save_now && !complete, ..accounted(v, list, quota) }
        } else {
            v
        },
        complete,
    )
}

/// What is known after one chunk was written.
pub open spec fn with_written(v: SaveView, pos: ChunkPos, size: u64) -> SaveView {
    let key = chunk::chunk_key(pos);
    let before = if v.sizes.contains_key(key) {
        v.sizes[key]
    } else {
        0
    };
    SaveView {
        known: v.known.insert(key),
        loaded: v.loaded.insert(key),
        sizes: v.sizes.insert(key, size),
        bytes: if v.bytes - before + size > u64::MAX {
            u64::MAX
        } else if v.bytes - before + size < 0 {
            0
        } else {
            (v.bytes - before + size) as u64
        },
        ..v
    }
}

/// What is known after some chunks were written.
pub open spec fn with_all_written(v: SaveView, list: Seq<(ChunkPos, u64)>) -> SaveView
    decreases list.len(),
{
    if list.len() == 0 {
        v
    } else {
        with_written(
            with_all_written(v, list.drop_last()),
            list.last().0,
            list.last().1,
        )
    }
}

/// What is known after the chunks of a round were written, and the space left may have been looked
/// at.
pub open spec fn accounted(
    v: SaveView,
    list: Seq<(ChunkPos, u64)>,
    quota: Option<QuotaInfo>,
) -> SaveView {
    let w = with_all_written(v, list);
    SaveView {
        quota: if quota is Some {
            quota
        } else {
            w.quota
        },
        ..w
    }
}

/// Writing a chunk again with the same size takes no more space.
pub proof fn law_writing_again_takes_no_more_space(v: SaveView, pos: ChunkPos, size: u64)
    requires
        v.bytes + size <= u64::MAX,
        v.sizes.contains_key(chunk::chunk_key(pos)) ==> v.sizes[chunk::chunk_key(pos)] <= v.bytes,
    ensures
        with_written(with_written(v, pos, size), pos, size) == with_written(v, pos, size),
{
    let once = with_written(v, pos, size);
    assert(with_written(once, pos, size) =~= once);
}

/// The keys of a list of written chunks.
pub open spec fn has_entry(list: Seq<(ChunkPos, u64)>, pos: ChunkPos) -> bool {
    exists|i: int| 0 <= i < list.len() && (#[trigger] list[i]).0 == pos
}

/// The chunks of a list that are not among the written ones, in their order.
pub open spec fn not_written(list: Seq<ChunkPos>, written: Seq<(ChunkPos, u64)>) -> Seq<ChunkPos>
    decreases list.len(),
{
    if list.len() == 0 {
        list
    } else {
        let rest = not_written(list.drop_last(), written);
        if has_entry(written, list.last()) {
            rest
        } else {
            rest.push(list.last())
        }
    }
}

/// Whether a chunk is to be read back: it is on disk, and neither here nor on its way.
pub open spec fn is_wanted(v: SaveView, pos: ChunkPos) -> bool {
    let key = chunk::chunk_key(pos);
    v.known.contains(key) && !v.loaded.contains(key) && !v.pending.contains(key)
}

/// The chunks of a list that are to be read back, in their order.
pub open spec fn wanted(v: SaveView, list: Seq<ChunkPos>) -> Seq<ChunkPos>
    decreases list.len(),
{
    if list.len() == 0 {
        list
    } else {
        let rest = wanted(v, list.drop_last());
        if is_wanted(v, list.last()) {
            rest.push(list.last())
        } else {
            rest
        }
    }
}

/// What is known after a chunk was read back.
pub open spec fn after_load(v: SaveView, pos: ChunkPos, outcome: LoadOutcome) -> SaveView {
    let key = chunk::chunk_key(pos);
    SaveView {
        pending: v.pending.remove(key),
        loaded: v.loaded.insert(key),
        known: if outcome == LoadOutcome::Missing {
            v.known.remove(key)
        } else {
            v.known
        },
        ..v
    }
}

/// A chunk is read back once: it is not wanted again while it is on its way, nor once it is here.
pub proof fn law_chunks_are_read_once(v: SaveView, pos: ChunkPos, outcome: LoadOutcome)
    ensures
        !is_wanted(
            SaveView { pending: v.pending.insert(chunk::chunk_key(pos)), ..v },
            pos,
        ),
        !is_wanted(after_load(v, pos, outcome), pos),
{
}

/// The chunks of a directory, with their sizes.
pub open spec fn entry_sizes(list: Seq<(ChunkPos, u64)>) -> Map<u64, u64>
    decreases list.len(),
{
    if list.len() == 0 {
        Map::empty()
    } else {
        entry_sizes(list.drop_last()).insert(chunk::chunk_key(list.last().0), list.last().1)
    }
}

/// The queues after a chunk and the four beside it were asked for.
pub open spec fn queued_with_sides(v: Seq<Seq<ChunkPos>>, pos: ChunkPos, p: MeshPriority) -> Seq<
    Seq<ChunkPos>,
> {
    let r = mesh_jobs::rank(p);
    let v0 = mesh_jobs::after_enqueue(v, pos, r);
    let v1 = mesh_jobs::after_enqueue(v0, chunk::moved(pos, 1, 0), r);
    let v2 = mesh_jobs::after_enqueue(v1, chunk::moved(pos, -1, 0), r);
    let v3 = mesh_jobs::after_enqueue(v2, chunk::moved(pos, 0, 1), r);
    mesh_jobs::after_enqueue(v3, chunk::moved(pos, 0, -1), r)
}

/// Asks for a chunk and the four beside it to be meshed.
pub fn enqueue_chunk_and_neighbors(jobs: &mut MeshJobQueue, pos: ChunkPos, priority: MeshPriority)
    requires
        old(jobs).wf(),
    ensures
        final(jobs).wf(),
        final(jobs)@ == queued_with_sides(old(jobs)@, pos, priority),
{
    jobs.enqueue(pos, priority);
    jobs.enqueue(pos.offset(1, 0), priority);
    jobs.enqueue(pos.offset(-1, 0), priority);
    jobs.enqueue(pos.offset(0, 1), priority);
    jobs.enqueue(pos.offset(0, -1), priority);
}

/// How many chunks can be marked as changed at once.
pub const MAX_MARKED_CHUNKS: u32 = 20_000;

/// A chunk of the area that is marked as changed to try out saving: lines of 160 chunks.
pub open spec fn marked_chunk(i: int) -> ChunkPos {
    ChunkPos { x: (i % 160 - 80) as i32, z: (i / 160 - 80) as i32 }
}

/// The chunks to mark as changed to try out saving.
pub fn chunks_to_mark(n: u32) -> (out: Vec<ChunkPos>)
    ensures
        out@ == Seq::new(
            if n > MAX_MARKED_CHUNKS {
                MAX_MARKED_CHUNKS as nat
            } else {
                n as nat
            },
            |i: int| marked_chunk(i),
        ),
{
    let count: u32 = if n > MAX_MARKED_CHUNKS {
        MAX_MARKED_CHUNKS
    } else {
        n
    };
    let mut out: Vec<ChunkPos> = Vec::new();
    let mut i: u32 = 0;
    while i < count
        invariant
            i <= count <= MAX_MARKED_CHUNKS,
            out@.len() == i,
            forall|k: int| 0 <= k < i ==> #[trigger] out@[k] == marked_chunk(k),
        decreases count - i,
    {
        out.push(ChunkPos::new((i % 160) as i32 - 80, (i / 160) as i32 - 80));
        i = i + 1;
    }
    proof {
        assert(out@ =~= Seq::new(count as nat, |i: int| marked_chunk(i)));
    }
    out
}

/// The changed chunks of a round that were not in memory, so that there was nothing to write.
pub fn missing_positions(positions: &Vec<ChunkPos>, encoded: &Vec<(ChunkPos, u64)>) -> (out: Vec<
    ChunkPos,
>)
    ensures
        out@ == not_written(positions@, encoded@),
{
    let mut keys: HashSet<u64> = HashSet::new();
    let mut k: usize = 0;
    while k < encoded.len()
        invariant
            k <= encoded@.len(),
            forall|p: ChunkPos|
                keys@.contains(#[trigger] chunk::chunk_key(p)) <==> has_entry(
                    encoded@.take(k as int),
                    p,
                ),
        decreases encoded@.len() - k,
    {
        let pos = encoded[k].0;
        let ghost before = keys@;
        keys.insert(pos.key());
        proof {
            let earlier = encoded@.take(k as int);
            let now = encoded@.take(k + 1);
            assert forall|p: ChunkPos|
                keys@.contains(#[trigger] chunk::chunk_key(p)) <==> has_entry(now, p) by {
                chunk::law_chunk_key_round_trip(p, pos);
                if has_entry(earlier, p) {
                    let i = choose|i: int| 0 <= i < earlier.len() && (#[trigger] earlier[i]).0 == p;
                    assert(now[i].0 == p);
                }
                if has_entry(now, p) {
                    let i = choose|i: int| 0 <= i < now.len() && (#[trigger] now[i]).0 == p;
                    if i < k {
                        assert(earlier[i].0 == p);
                    }
                }
                if p == pos {
                    assert(now[k as int].0 == p);
                }
                assert(before.contains(chunk::chunk_key(p)) <==> has_entry(earlier, p));
            }
        }
        k = k + 1;
    }
    proof {
        assert(encoded@.take(k as int) =~= encoded@);
        assert(positions@.take(0) =~= Seq::empty());
    }
    let mut out: Vec<ChunkPos> = Vec::new();
    let mut i: usize = 0;
    while i < positions.len()
        invariant
            i <= positions@.len(),
            forall|p: ChunkPos|
                keys@.contains(#[trigger] chunk::chunk_key(p)) <==> has_entry(encoded@, p),
            out@ == not_written(positions@.take(i as int), encoded@),
        decreases positions@.len() - i,
    {
        let pos = positions[i];
        proof {
            assert(positions@.take(i + 1).drop_last() =~= positions@.take(i as int));
        }
        if !keys.contains(&pos.key()) {
            out.push(pos);
        }
        i = i + 1;
    }
    proof {
        assert(positions@.take(i as int) =~= positions@);
    }
    out
}

impl SaveNote {
    /// The words of the note.
    pub fn words(self) -> (r: &'static str)
        ensures
            r@ == note_words(self),
    {
        match self {
            SaveNote::SavedByHost => "Remote worlds are saved by the host",
            SaveNote::Unavailable => "Save unavailable",
            SaveNote::Complete => "Save complete",
            SaveNote::WillRetry => "Save will retry soon",
        }
    }
}

impl View for SaveState {
    type V = SaveView;

    open spec fn view(&self) -> SaveView {
        SaveView {
            known: self.known_persisted@,
            loaded: self.loaded_persisted_chunks@,
            pending: self.pending_persisted_loads@,
            bytes: self.current_world_bytes,
            other_bytes: self.other_worlds_bytes,
            sizes: self.persisted_chunk_sizes@,
            save_now: self.save_now_requested,
            last_us: self.last_persist_us,
            quota: self.quota,
            error: text::content_of(self.storage_error),
        }
    }
}

impl SaveState {
    /// Nothing is on disk.
    pub fn new() -> (r: SaveState)
        ensures
            r@ == (SaveView {
                known: Set::empty(),
                loaded: Set::empty(),
                pending: Set::empty(),
                bytes: 0,
                other_bytes: 0,
                sizes: Map::empty(),
                save_now: false,
                last_us: 0,
                quota: None,
                error: None,
            }),
    {
        SaveState {
            known_persisted: HashSet::new(),
            loaded_persisted_chunks: HashSet::new(),
            pending_persisted_loads: HashSet::new(),
            current_world_bytes: 0,
            other_worlds_bytes: 0,
            persisted_chunk_sizes: HashMap::new(),
            save_now_requested: false,
            last_persist_us: 0,
            quota: None,
            storage_error: None,
        }
    }

    /// The player asks for everything to be written now.
    pub fn request_save(&mut self)
        ensures
            final(self)@ == (SaveView { save_now: true, last_us: 0, ..old(self)@ }),
    {
        self.save_now_requested = true;
        self.last_persist_us = 0;
    }

    /// The space that is to be looked at before a round of writing, if one is due.
    pub fn quota_to_check(&self, mode: GameMode, now_us: u64) -> (r: Option<QuotaInfo>)
        ensures
            r == (if is_due(self@, mode, now_us) {
                self@.quota
            } else {
                None
            }),
    {
        if self.due(mode, now_us) {
            self.quota
        } else {
            None
        }
    }

    fn due(&self, mode: GameMode, now_us: u64) -> (r: bool)
        ensures
            r == is_due(self@, mode, now_us),
    {
        mode != GameMode::Remote && (self.save_now_requested || (now_us >= self.last_persist_us
            && now_us - self.last_persist_us >= AUTO_SAVE_INTERVAL_US))
    }

    /// Begins a round of writing, if it is time. A request that cannot be met is dropped with a
    /// note.
    pub fn pump_start(
        &mut self,
        mode: GameMode,
        now_us: u64,
        has_storage: bool,
        in_flight: usize,
        should_flush: bool,
    ) -> (r: PumpStep)
        ensures
            r == pump_begins(old(self)@, mode, now_us, has_storage, in_flight, should_flush),
            final(self)@ == (SaveView {
                save_now: old(self)@.save_now && !(r is Notify),
                ..old(self)@
            }),
    {
        let save_now = self.save_now_requested;
        if !self.due(mode, now_us) {
            if save_now {
                self.save_now_requested = false;
                return PumpStep::Notify { note: SaveNote::SavedByHost };
            }
            return PumpStep::Idle;
        }
        if !has_storage {
            if save_now {
                self.save_now_requested = false;
                return PumpStep::Notify { note: SaveNote::Unavailable };
            }
            return PumpStep::Idle;
        }
        if in_flight > 0 || (!save_now && !should_flush) {
            return PumpStep::Idle;
        }
        let limit: usize = if save_now {
            SAVE_NOW_BATCH_CHUNKS
        } else {
            AUTO_SAVE_BATCH_CHUNKS
        };
        PumpStep::TakeBatch { limit, save_now }
    }

    /// There was nothing to write in a round. A request of the player is answered: either all is
    /// written, or what is left has to wait. While something is being written the answer comes
    /// later.
    pub fn pump_nothing(&mut self, dirty: usize, in_flight: usize) -> (r: Option<SaveNote>)
        ensures
            (final(self)@, r) == nothing_outcome(old(self)@, dirty, in_flight),
            r == (if !old(self)@.save_now || in_flight > 0 {
                None
            } else if dirty == 0 {
                Some(SaveNote::Complete)
            } else {
                Some(SaveNote::WillRetry)
            }),
            final(self)@ == (SaveView {
                save_now: old(self)@.save_now && r is None,
                ..old(self)@
            }),
    {
        if !self.save_now_requested || in_flight > 0 {
            return None;
        }
        self.save_now_requested = false;
        if dirty == 0 {
            Some(SaveNote::Complete)
        } else {
            Some(SaveNote::WillRetry)
        }
    }

    /// The chunks of a round are on their way to the disk.
    pub fn pump_sent(&mut self, now_us: u64)
        ensures
            final(self)@ == (SaveView { last_us: now_us, ..old(self)@ }),
    {
        self.last_persist_us = now_us;
    }

    /// Takes up that chunks have been written, with their sizes.
    pub fn apply_persisted_accounting(
        &mut self,
        encoded_sizes: &Vec<(ChunkPos, u64)>,
        refreshed_quota: Option<QuotaInfo>,
    )
        ensures
            final(self)@ == accounted(old(self)@, encoded_sizes@, refreshed_quota),
    {
        let ghost before = self@;
        let mut i: usize = 0;
        proof {
            assert(encoded_sizes@.take(0) =~= Seq::empty());
        }
        while i < encoded_sizes.len()
            invariant
                i <= encoded_sizes@.len(),
                self@ == with_all_written(before, encoded_sizes@.take(i as int)),
            decreases encoded_sizes@.len() - i,
        {
            let (pos, size) = encoded_sizes[i];
            let ghost step = self@;
            let key: u64 = pos.key();
            self.known_persisted.insert(key);
            self.loaded_persisted_chunks.insert(key);
            let old_size: u64 = match self.persisted_chunk_sizes.get(&key) {
                Some(n) => *n,
                None => 0,
            };
            self.persisted_chunk_sizes.insert(key, size);
            if size >= old_size {
                self.current_world_bytes = self.current_world_bytes.saturating_add(size - old_size);
            } else {
                self.current_world_bytes = self.current_world_bytes.saturating_sub(old_size - size);
            }
            proof {
                assert(self@ =~= with_written(step, pos, size));
                assert(encoded_sizes@.take(i + 1).drop_last() =~= encoded_sizes@.take(i as int));
            }
            i = i + 1;
        }
        proof {
            assert(encoded_sizes@.take(i as int) =~= encoded_sizes@);
        }
        if refreshed_quota.is_some() {
            self.quota = refreshed_quota;
        }
    }

    /// The chunks of a round have been written. Says whether that meets the request of the player.
    /// `current` tells whether the world is still the one they belong to.
    pub fn round_written(
        &mut self,
        current: bool,
        encoded_sizes: &Vec<(ChunkPos, u64)>,
        refreshed_quota: Option<QuotaInfo>,
        save_now: bool,
        dirty: usize,
        in_flight: usize,
    ) -> (r: bool)
        ensures
            (final(self)@, r) == round_outcome(
                old(self)@,
                current,
                encoded_sizes@,
                refreshed_quota,
                save_now,
                dirty,
                in_flight,
            ),
            r == (save_now && dirty == 0 && in_flight == 0),
            final(self)@ == (if !current {
                old(self)@
            } else {
                SaveView {
                    save_now: old(self)@.save_now && !r,
                    ..accounted(old(self)@, encoded_sizes@, refreshed_quota)
                }
            }),
    {
        let done = save_now && dirty == 0 && in_flight == 0;
        if current {
            let ghost before = self@;
            self.apply_persisted_accounting(encoded_sizes, refreshed_quota);
            proof {
                lemma_accounting_keeps_request(before, encoded_sizes@);
            }
            if done {
                self.save_now_requested = false;
            }
        }
        done
    }

    /// The chunks of a round could not be written. A request of the player is dropped.
    pub fn round_failed(&mut self, current: bool, save_now: bool)
        ensures
            final(self)@ == (SaveView {
                save_now: old(self)@.save_now && !(current && save_now),
                ..old(self)@
            }),
    {
        if current && save_now {
            self.save_now_requested = false;
        }
    }

    /// The chunks in sight that are to be read back now; they count as being on their way.
    pub fn visible_loads(&mut self, center: ChunkPos, render_distance: i32) -> (out: Vec<ChunkPos>)
        requires
            chunk_loader::in_world(center),
            chunk_loader::is_distance(render_distance as int),
        ensures
            ({
                let list = chunk_loader::square(
                    center,
                    if render_distance < 0 {
                        0
                    } else {
                        render_distance as int
                    },
                );
                &&& out@ == wanted(old(self)@, list)
                &&& final(self)@ == (SaveView {
                    pending: chunk_loader::with_keys(old(self)@.pending, out@),
                    ..old(self)@
                })
            }),
    {
        let r: i32 = if render_distance < 0 {
            0
        } else {
            render_distance
        };
        let list = chunks_around(center, r);
        let ghost before = self@;
        let mut out: Vec<ChunkPos> = Vec::new();
        let mut i: usize = 0;
        proof {
            chunk_loader::law_square_is_the_chunks_in_sight(center, r as int);
            assert(list@.take(0) =~= Seq::empty());
        }
        while i < list.len()
            invariant
                i <= list@.len(),
                list@.no_duplicates(),
                out@ == wanted(before, list@.take(i as int)),
                self@ == (SaveView {
                    pending: chunk_loader::with_keys(before.pending, out@),
                    ..before
                }),
            decreases list@.len() - i,
        {
            let pos = list[i];
            let key: u64 = pos.key();
            proof {
                lemma_seen_before(before, list@, i as int);
                assert(list@.take(i + 1).drop_last() =~= list@.take(i as int));
            }
            if self.known_persisted.contains(&key) && !self.loaded_persisted_chunks.contains(&key)
                && !self.pending_persisted_loads.contains(&key) {
                let ghost earlier = out@;
                self.pending_persisted_loads.insert(key);
                out.push(pos);
                proof {
                    assert(out@.drop_last() =~= earlier);
                }
            }
            i = i + 1;
        }
        proof {
            assert(list@.take(i as int) =~= list@);
        }
        out
    }

    /// The chunks around the spawn point that are on disk, to be read back when a world is opened.
    pub fn spawn_loads(spawn: ChunkPos, known: &HashSet<u64>) -> (out: Vec<ChunkPos>)
        requires
            chunk_loader::in_world(spawn),
        ensures
            out@ == present_in(
                chunk_loader::square(spawn, SPAWN_READ_DISTANCE as int),
                known@,
            ),
    {
        let list = chunks_around(spawn, SPAWN_READ_DISTANCE);
        let mut out: Vec<ChunkPos> = Vec::new();
        let mut i: usize = 0;
        proof {
            assert(list@.take(0) =~= Seq::empty());
        }
        while i < list.len()
            invariant
                i <= list@.len(),
                out@ == present_in(list@.take(i as int), known@),
            decreases list@.len() - i,
        {
            let pos = list[i];
            proof {
                assert(list@.take(i + 1).drop_last() =~= list@.take(i as int));
            }
            if known.contains(&pos.key()) {
                out.push(pos);
            }
            i = i + 1;
        }
        proof {
            assert(list@.take(i as int) =~= list@);
        }
        out
    }

    /// Takes up what has become of reading back a chunk. Says whether the chunk is to be put into
    /// the world: one that has changed in the meantime is not.
    pub fn load_finished(&mut self, pos: ChunkPos, outcome: LoadOutcome, changed: bool) -> (r: bool)
        ensures
            r == (outcome == LoadOutcome::Found && !changed),
            final(self)@ == after_load(old(self)@, pos, outcome),
    {
        let key: u64 = pos.key();
        self.pending_persisted_loads.remove(&key);
        self.loaded_persisted_chunks.insert(key);
        if outcome == LoadOutcome::Missing {
            self.known_persisted.remove(&key);
        }
        outcome == LoadOutcome::Found && !changed
    }

    /// Takes up a world that has been opened: the chunks of its directory with their sizes, those
    /// that have been read back, and the space taken.
    pub fn attach(
        &mut self,
        entries: &Vec<(ChunkPos, u64)>,
        loaded: &Vec<ChunkPos>,
        current_world_bytes: u64,
        other_worlds_bytes: u64,
        quota: Option<QuotaInfo>,
    )
        ensures
            final(self)@ == (SaveView {
                known: entry_sizes(entries@).dom(),
                loaded: chunk_loader::with_keys(Set::empty(), loaded@),
                pending: Set::empty(),
                bytes: current_world_bytes,
                other_bytes: other_worlds_bytes,
                sizes: entry_sizes(entries@),
                quota,
                error: None,
                ..old(self)@
            }),
    {
        let ghost before = self@;
        let mut known: HashSet<u64> = HashSet::new();
        let mut sizes: HashMap<u64, u64> = HashMap::new();
        let mut i: usize = 0;
        proof {
            assert(entries@.take(0) =~= Seq::empty());
            assert(known@ =~= entry_sizes(entries@.take(0)).dom());
        }
        while i < entries.len()
            invariant
                i <= entries@.len(),
                sizes@ == entry_sizes(entries@.take(i as int)),
                known@ == sizes@.dom(),
            decreases entries@.len() - i,
        {
            let (pos, size) = entries[i];
            let key: u64 = pos.key();
            known.insert(key);
            sizes.insert(key, size);
            proof {
                assert(entries@.take(i + 1).drop_last() =~= entries@.take(i as int));
                assert(known@ =~= sizes@.dom());
            }
            i = i + 1;
        }
        proof {
            assert(entries@.take(i as int) =~= entries@);
        }
        let mut here: HashSet<u64> = HashSet::new();
        let mut k: usize = 0;
        proof {
            assert(loaded@.take(0) =~= Seq::empty());
        }
        while k < loaded.len()
            invariant
                k <= loaded@.len(),
                here@ == chunk_loader::with_keys(Set::empty(), loaded@.take(k as int)),
            decreases loaded@.len() - k,
        {
            here.insert(loaded[k].key());
            proof {
                assert(loaded@.take(k + 1).drop_last() =~= loaded@.take(k as int));
            }
            k = k + 1;
        }
        proof {
            assert(loaded@.take(k as int) =~= loaded@);
        }
        self.known_persisted = known;
        self.loaded_persisted_chunks = here;
        self.pending_persisted_loads = HashSet::new();
        self.persisted_chunk_sizes = sizes;
        self.current_world_bytes = current_world_bytes;
        self.other_worlds_bytes = other_worlds_bytes;
        self.quota = quota;
        self.storage_error = None;
    }

    /// The world could not be opened.
    pub fn attach_failed(&mut self, why: String)
        ensures
            final(self)@ == (SaveView { error: Some(why@), ..old(self)@ }),
    {
        self.storage_error = Some(why);
    }
}

/// The chunks of a list whose keys are in a set, in their order.
pub open spec fn present_in(list: Seq<ChunkPos>, set: Set<u64>) -> Seq<ChunkPos>
    decreases list.len(),
{
    if list.len() == 0 {
        list
    } else {
        let rest = present_in(list.drop_last(), set);
        if set.contains(chunk::chunk_key(list.last())) {
            rest.push(list.last())
        } else {
            rest
        }
    }
}

proof fn lemma_accounting_keeps_request(v: SaveView, list: Seq<(ChunkPos, u64)>)
    ensures
        with_all_written(v, list).save_now == v.save_now,
    decreases list.len(),
{
    if list.len() > 0 {
        lemma_accounting_keeps_request(v, list.drop_last());
    }
}

proof fn lemma_wanted_are_listed(v: SaveView, list: Seq<ChunkPos>, p: ChunkPos)
    ensures
        chunk_loader::with_keys(v.pending, wanted(v, list)).contains(chunk::chunk_key(p)) ==> (
        v.pending.contains(chunk::chunk_key(p)) || list.contains(p)),
        v.pending.contains(chunk::chunk_key(p)) ==> chunk_loader::with_keys(
            v.pending,
            wanted(v, list),
        ).contains(chunk::chunk_key(p)),
    decreases list.len(),
{
    if list.len() > 0 {
        let rest = list.drop_last();
        let last = list.last();
        lemma_wanted_are_listed(v, rest, p);
        chunk::law_chunk_key_round_trip(p, last);
        assert(list[list.len() - 1] == last);
        if rest.contains(p) {
            let k = choose|k: int| 0 <= k < rest.len() && rest[k] == p;
            assert(list[k] == p);
        }
        if is_wanted(v, last) {
            assert(wanted(v, list).drop_last() =~= wanted(v, rest));
        }
    }
}

proof fn lemma_seen_before(v: SaveView, list: Seq<ChunkPos>, i: int)
    requires
        0 <= i < list.len(),
        list.no_duplicates(),
    ensures
        chunk_loader::with_keys(v.pending, wanted(v, list.take(i))).contains(
            chunk::chunk_key(list[i]),
        ) == v.pending.contains(chunk::chunk_key(list[i])),
{
    lemma_wanted_are_listed(v, list.take(i), list[i]);
    if list.take(i).contains(list[i]) {
        let k = choose|k: int| 0 <= k < i && list.take(i)[k] == list[i];
        assert(list[k] == list[i]);
    }
}

/// A round of saving begins exactly when the player keeps the world, there is where to save to, no
/// round is under way, and either the player has asked for it or something is to be written and
/// three seconds have passed since the last round. A round that was asked for takes more chunks.
pub proof fn law_rounds_begin_when_they_may(
    v: SaveView,
    mode: GameMode,
    now_us: u64,
    has_storage: bool,
    in_flight: usize,
    should_flush: bool,
)
    ensures
        ({
            let step = pump_begins(v, mode, now_us, has_storage, in_flight, should_flush);
            &&& step is TakeBatch <==> mode != GameMode::Remote && has_storage && in_flight == 0 && (
            v.save_now || should_flush && now_us - v.last_us >= 3_000_000)
            &&& step matches PumpStep::TakeBatch { limit, save_now } ==> save_now == v.save_now
                && limit == if v.save_now {
                16int
            } else {
                4
            }
        }),
{
}

/// Asking for a save that cannot be done is answered, and why; nothing is said when nobody asked.
pub proof fn law_a_save_that_cannot_be_is_answered(
    v: SaveView,
    mode: GameMode,
    now_us: u64,
    has_storage: bool,
    in_flight: usize,
    should_flush: bool,
)
    ensures
        ({
            let step = pump_begins(v, mode, now_us, has_storage, in_flight, should_flush);
            &&& v.save_now && mode == GameMode::Remote ==> step == (PumpStep::Notify {
                note: SaveNote::SavedByHost,
            })
            &&& v.save_now && mode != GameMode::Remote && !has_storage ==> step
                == (PumpStep::Notify { note: SaveNote::Unavailable })
            &&& step is Notify ==> v.save_now
        }),
{
}

/// A save that was asked for ends with a note: complete once nothing is left to be written and
/// nothing is under way, and to be tried again when something could not be taken. Until then the
/// wish stands.
pub proof fn law_a_save_ends_with_a_note(v: SaveView, dirty: usize, in_flight: usize)
    ensures
        ({
            let (a, note) = nothing_outcome(v, dirty, in_flight);
            &&& note == Some(SaveNote::Complete) <==> v.save_now && in_flight == 0 && dirty == 0
            &&& note == Some(SaveNote::WillRetry) <==> v.save_now && in_flight == 0 && dirty > 0
            &&& a.save_now <==> v.save_now && note is None
            &&& a.bytes == v.bytes
            &&& a.known == v.known
        }),
{
}

/// A written round counts for the world that is still there, and only for it; the wish to save is
/// fulfilled once nothing is left.
pub proof fn law_a_written_round_counts_for_its_world(
    v: SaveView,
    list: Seq<(ChunkPos, u64)>,
    quota: Option<QuotaInfo>,
    save_now: bool,
    dirty: usize,
    in_flight: usize,
    pos: ChunkPos,
)
    ensures
        ({
            let (a, done) = round_outcome(v, true, list, quota, save_now, dirty, in_flight);
            let (b, _) = round_outcome(v, false, list, quota, save_now, dirty, in_flight);
            &&& b == v
            &&& done <==> save_now && dirty == 0 && in_flight == 0
            &&& done ==> !a.save_now
            &&& !done ==> a.save_now == v.save_now
            &&& has_entry(list, pos) ==> a.known.contains(chunk::chunk_key(pos))
                && a.sizes.contains_key(chunk::chunk_key(pos)) && a.loaded.contains(
                chunk::chunk_key(pos),
            )
            &&& quota is Some ==> a.quota == quota
            &&& quota is None ==> a.quota == v.quota
        }),
{
    lemma_all_written(v, list, pos);
}

proof fn lemma_all_written(v: SaveView, list: Seq<(ChunkPos, u64)>, pos: ChunkPos)
    ensures
        ({
            let a = with_all_written(v, list);
            let key = chunk::chunk_key(pos);
            &&& has_entry(list, pos) ==> a.known.contains(key) && a.loaded.contains(key)
                && a.sizes.contains_key(key)
            &&& !has_entry(list, pos) ==> a.known.contains(key) == v.known.contains(key)
                && a.loaded.contains(key) == v.loaded.contains(key) && a.sizes.contains_key(key)
                == v.sizes.contains_key(key) && a.sizes[key] == v.sizes[key]
            &&& a.quota == v.quota
            &&& a.save_now == v.save_now
        }),
    decreases list.len(),
{
    if list.len() > 0 {
        let rest = list.drop_last();
        lemma_all_written(v, rest, pos);
        chunk::law_chunk_key_round_trip(pos, list.last().0);
        assert(list[list.len() - 1] == list.last());
        if has_entry(rest, pos) {
            let i = choose|i: int| 0 <= i < rest.len() && (#[trigger] rest[i]).0 == pos;
            assert(list[i].0 == pos);
        }
        if has_entry(list, pos) && list.last().0 != pos {
            let i = choose|i: int| 0 <= i < list.len() && (#[trigger] list[i]).0 == pos;
            assert(rest[i].0 == pos);
        }
    }
}

/// Writing a chunk changes what the world takes by the difference to what the chunk took before,
/// and notes its new size; the other chunks are as they were.
pub proof fn law_space_is_accounted_for(v: SaveView, pos: ChunkPos, size: u64, other: ChunkPos)
    requires
        v.bytes + size <= u64::MAX,
        v.sizes.contains_key(chunk::chunk_key(pos)) ==> v.sizes[chunk::chunk_key(pos)] <= v.bytes,
    ensures
        ({
            let a = with_written(v, pos, size);
            let key = chunk::chunk_key(pos);
            let far = chunk::chunk_key(other);
            &&& a.sizes[key] == size
            &&& v.sizes.contains_key(key) ==> a.bytes - size == v.bytes - v.sizes[key]
            &&& !v.sizes.contains_key(key) ==> a.bytes == v.bytes + size
            &&& other != pos ==> a.sizes.contains_key(far) == v.sizes.contains_key(far)
                && a.sizes[far] == v.sizes[far]
            &&& a.other_bytes == v.other_bytes
            &&& !is_wanted(a, pos)
        }),
{
    chunk::law_chunk_key_round_trip(pos, other);
}

/// Of the chunks that were to be written, those without an entry were not.
pub proof fn law_what_was_not_written_is_found(
    list: Seq<ChunkPos>,
    written: Seq<(ChunkPos, u64)>,
    pos: ChunkPos,
)
    ensures
        not_written(list, written).contains(pos) <==> list.contains(pos) && forall|i: int|
            0 <= i < written.len() ==> (#[trigger] written[i]).0 != pos,
    decreases list.len(),
{
    let out = not_written(list, written);
    if list.len() > 0 {
        let rest = list.drop_last();
        let last = list.last();
        let before = not_written(rest, written);
        law_what_was_not_written_is_found(rest, written, pos);
        assert(list[list.len() - 1] == last);
        if rest.contains(pos) {
            let i = choose|i: int| 0 <= i < rest.len() && rest[i] == pos;
            assert(list[i] == pos);
        }
        if list.contains(pos) && pos != last {
            let i = choose|i: int| 0 <= i < list.len() && list[i] == pos;
            assert(rest[i] == pos);
        }
        if before.contains(pos) {
            let i = choose|i: int| 0 <= i < before.len() && before[i] == pos;
            assert(out[i] == pos);
        }
        if !has_entry(written, last) {
            assert(out[before.len() as int] == last);
            if out.contains(pos) && pos != last {
                let i = choose|i: int| 0 <= i < out.len() && out[i] == pos;
                assert(before[i] == pos);
            }
        }
    }
}

/// Chunks are read from where they were saved exactly if they were saved, are not in the world yet,
/// and are not being read.
pub proof fn law_saved_chunks_are_read_when_wanted(
    v: SaveView,
    list: Seq<ChunkPos>,
    pos: ChunkPos,
)
    ensures
        wanted(v, list).contains(pos) <==> list.contains(pos) && v.known.contains(
            chunk::chunk_key(pos),
        ) && !v.loaded.contains(chunk::chunk_key(pos)) && !v.pending.contains(
            chunk::chunk_key(pos),
        ),
    decreases list.len(),
{
    let out = wanted(v, list);
    if list.len() > 0 {
        let rest = list.drop_last();
        let last = list.last();
        let before = wanted(v, rest);
        law_saved_chunks_are_read_when_wanted(v, rest, pos);
        assert(list[list.len() - 1] == last);
        if rest.contains(pos) {
            let i = choose|i: int| 0 <= i < rest.len() && rest[i] == pos;
            assert(list[i] == pos);
        }
        if list.contains(pos) && pos != last {
            let i = choose|i: int| 0 <= i < list.len() && list[i] == pos;
            assert(rest[i] == pos);
        }
        if before.contains(pos) {
            let i = choose|i: int| 0 <= i < before.len() && before[i] == pos;
            assert(out[i] == pos);
        }
        if is_wanted(v, last) {
            assert(out[before.len() as int] == last);
            if out.contains(pos) && pos != last {
                let i = choose|i: int| 0 <= i < out.len() && out[i] == pos;
                assert(before[i] == pos);
            }
        }
    }
}

/// A chunk that has been read counts as there and is not being read any more; one whose file is
/// missing does not count as saved. Nothing is noted of other chunks.
pub proof fn law_a_read_chunk_is_there(
    v: SaveView,
    pos: ChunkPos,
    outcome: LoadOutcome,
    other: ChunkPos,
)
    ensures
        ({
            let a = after_load(v, pos, outcome);
            let key = chunk::chunk_key(pos);
            let far = chunk::chunk_key(other);
            &&& a.loaded.contains(key)
            &&& !a.pending.contains(key)
            &&& a.known.contains(key) <==> v.known.contains(key) && outcome != LoadOutcome::Missing
            &&& other != pos ==> a.loaded.contains(far) == v.loaded.contains(far)
                && a.pending.contains(far) == v.pending.contains(far) && a.known.contains(far)
                == v.known.contains(far)
            &&& a.bytes == v.bytes
        }),
{
    chunk::law_chunk_key_round_trip(pos, other);
}

/// The sizes on record are those of the entries, the latest of each chunk.
pub proof fn law_entries_give_the_sizes(list: Seq<(ChunkPos, u64)>, more: (ChunkPos, u64), other: ChunkPos)
    ensures
        entry_sizes(list.push(more))[chunk::chunk_key(more.0)] == more.1,
        entry_sizes(list.push(more)).contains_key(chunk::chunk_key(more.0)),
        other != more.0 ==> entry_sizes(list.push(more)).contains_key(chunk::chunk_key(other))
            == entry_sizes(list).contains_key(chunk::chunk_key(other)),
        other != more.0 ==> entry_sizes(list.push(more))[chunk::chunk_key(other)] == entry_sizes(
            list,
        )[chunk::chunk_key(other)],
        entry_sizes(Seq::empty()) == Map::<u64, u64>::empty(),
{
    assert(list.push(more).drop_last() =~= list);
    chunk::law_chunk_key_round_trip(more.0, other);
}

/// A chunk and the four that border on it wait to be meshed, no later than asked.
pub proof fn law_a_chunk_is_meshed_with_its_sides(
    v: Seq<Seq<ChunkPos>>,
    pos: ChunkPos,
    p: MeshPriority,
)
    requires
        mesh_jobs::is_orderly(v),
    ensures
        ({
            let a = queued_with_sides(v, pos, p);
            let r = mesh_jobs::rank(p);
            &&& mesh_jobs::waits_by(a, pos, r)
            &&& mesh_jobs::waits_by(a, chunk::moved(pos, 1, 0), r)
            &&& mesh_jobs::waits_by(a, chunk::moved(pos, -1, 0), r)
            &&& mesh_jobs::waits_by(a, chunk::moved(pos, 0, 1), r)
            &&& mesh_jobs::waits_by(a, chunk::moved(pos, 0, -1), r)
        }),
{
    let r = mesh_jobs::rank(p);
    let (n1, n2, n3, n4) = (
        chunk::moved(pos, 1, 0),
        chunk::moved(pos, -1, 0),
        chunk::moved(pos, 0, 1),
        chunk::moved(pos, 0, -1),
    );
    let v0 = mesh_jobs::after_enqueue(v, pos, r);
    let v1 = mesh_jobs::after_enqueue(v0, n1, r);
    let v2 = mesh_jobs::after_enqueue(v1, n2, r);
    let v3 = mesh_jobs::after_enqueue(v2, n3, r);
    mesh_jobs::law_no_chunk_waits_twice(v, pos, p);
    mesh_jobs::law_no_chunk_waits_twice(v0, n1, p);
    mesh_jobs::law_no_chunk_waits_twice(v1, n2, p);
    mesh_jobs::law_no_chunk_waits_twice(v2, n3, p);
    mesh_jobs::law_enqueue_only_hastens(v, pos, p, pos, r);
    mesh_jobs::law_enqueue_only_hastens(v0, n1, p, pos, r);
    mesh_jobs::law_enqueue_only_hastens(v1, n2, p, pos, r);
    mesh_jobs::law_enqueue_only_hastens(v2, n3, p, pos, r);
    mesh_jobs::law_enqueue_only_hastens(v3, n4, p, pos, r);
    mesh_jobs::law_enqueue_only_hastens(v1, n2, p, n1, r);
    mesh_jobs::law_enqueue_only_hastens(v2, n3, p, n1, r);
    mesh_jobs::law_enqueue_only_hastens(v3, n4, p, n1, r);
    mesh_jobs::law_enqueue_only_hastens(v2, n3, p, n2, r);
    mesh_jobs::law_enqueue_only_hastens(v3, n4, p, n2, r);
    mesh_jobs::law_enqueue_only_hastens(v3, n4, p, n3, r);
}

/// The chunks that are marked for a trial of saving are all different.
pub proof fn law_marked_chunks_differ(i: int, j: int)
    requires
        0 <= i < MAX_MARKED_CHUNKS,
        0 <= j < MAX_MARKED_CHUNKS,
    ensures
        marked_chunk(i) == marked_chunk(j) ==> i == j,
        -80 <= marked_chunk(i).x < 80,
        -80 <= marked_chunk(i).z < 45,
        marked_chunk(i).x < 79 ==> marked_chunk(i + 1) == chunk::moved(marked_chunk(i), 1, 0),
        marked_chunk(i + 160) == chunk::moved(marked_chunk(i), 0, 1),
{
}

/// Of the chunks around the spawn point those that were saved are read, and no other.
pub proof fn law_saved_chunks_around_are_found(list: Seq<ChunkPos>, set: Set<u64>, more: ChunkPos)
    ensures
        set.contains(chunk::chunk_key(more)) ==> present_in(list.push(more), set) == present_in(
            list,
            set,
        ).push(more),
        !set.contains(chunk::chunk_key(more)) ==> present_in(list.push(more), set) == present_in(
            list,
            set,
        ),
        present_in(Seq::empty(), set) == Seq::<ChunkPos>::empty(),
{
    assert(list.push(more).drop_last() =~= list);
}

} // verus!
