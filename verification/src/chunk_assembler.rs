//! Putting chunk snapshots together again from the fragments in which they travel.
use std::collections::HashMap;

use vstd::prelude::*;

use crate::chunk;
use crate::chunk::ChunkPos;

verus! {

broadcast use vstd::std_specs::hash::group_hash_axioms;

/// A chunk that is being put together: as many slots as were announced.
struct PartialAssemble {
    frag_total: u16,
    fragments: Vec<Option<Vec<u8>>>,
}

/// Chunks that are being put together.
pub struct ChunkAssembler {
    partials: HashMap<u64, PartialAssemble>,
}

/// One chunk being put together, as mathematics.
#[verifier::ext_equal]
pub struct Assembly {
    pub total: u16,
    /// The fragments that have come in, by their number.
    pub slots: Seq<Option<Seq<u8>>>,
}

/// The content of a fragment.
pub open spec fn bytes_of(fragment: Option<Vec<u8>>) -> Option<Seq<u8>> {
    match fragment {
        Some(bytes) => Some(bytes@),
        None => None,
    }
}

/// How many slots an announced total stands for: at least one.
pub open spec fn slot_count(total: u16) -> nat {
    if total == 0 {
        1
    } else {
        total as nat
    }
}

/// Slots of which none has been filled.
pub open spec fn empty_slots(total: u16) -> Seq<Option<Seq<u8>>> {
    Seq::new(slot_count(total), |i: int| None)
}

/// The slots that a fragment with an announced total goes into. What was collected under another
/// total is forgotten.
pub open spec fn slots_before(v: Map<u64, Assembly>, key: u64, total: u16) -> Seq<
    Option<Seq<u8>>,
> {
    if v.contains_key(key) && v[key].total == total {
        v[key].slots
    } else {
        empty_slots(total)
    }
}

/// Whether every slot has been filled.
pub open spec fn all_filled(slots: Seq<Option<Seq<u8>>>) -> bool {
    forall|i: int| 0 <= i < slots.len() ==> (#[trigger] slots[i]) is Some
}

/// The bytes of the filled slots, one after another.
pub open spec fn joined(slots: Seq<Option<Seq<u8>>>) -> Seq<u8>
    decreases slots.len(),
{
    if slots.len() == 0 {
        Seq::empty()
    } else {
        match slots.last() {
            Some(bytes) => joined(slots.drop_last()) + bytes,
            None => joined(slots.drop_last()),
        }
    }
}

/// The slots after a fragment has come in. A fragment whose number is too large is dropped.
pub open spec fn slots_after(
    v: Map<u64, Assembly>,
    key: u64,
    index: u16,
    total: u16,
    payload: Seq<u8>,
) -> Seq<Option<Seq<u8>>> {
    let slots = slots_before(v, key, total);
    if index < slots.len() {
        slots.update(index as int, Some(payload))
    } else {
        slots
    }
}

/// Whether a fragment completes its chunk.
pub open spec fn completes(
    v: Map<u64, Assembly>,
    key: u64,
    index: u16,
    total: u16,
    payload: Seq<u8>,
) -> bool {
    index < slots_before(v, key, total).len() && all_filled(
        slots_after(v, key, index, total, payload),
    )
}

/// The chunks being put together after a fragment has come in.
pub open spec fn after_ingest(
    v: Map<u64, Assembly>,
    key: u64,
    index: u16,
    total: u16,
    payload: Seq<u8>,
) -> Map<u64, Assembly> {
    if completes(v, key, index, total, payload) {
        v.remove(key)
    } else {
        v.insert(
            key,
            Assembly {
                total: slot_count(total) as u16,
                slots: slots_after(v, key, index, total, payload),
            },
        )
    }
}

/// What a fragment that has come in yields: the whole chunk, once it is complete.
pub open spec fn ingest_result(
    v: Map<u64, Assembly>,
    key: u64,
    index: u16,
    total: u16,
    payload: Seq<u8>,
) -> Option<Seq<u8>> {
    if completes(v, key, index, total, payload) {
        Some(joined(slots_after(v, key, index, total, payload)))
    } else {
        None
    }
}

/// A fragment on its way, as mathematics.
pub struct Fragment {
    pub key: u64,
    pub index: u16,
    pub total: u16,
    pub payload: Seq<u8>,
}

/// The chunks being put together after fragments of any chunks have come in.
pub open spec fn after_run(v: Map<u64, Assembly>, run: Seq<Fragment>) -> Map<u64, Assembly>
    decreases run.len(),
{
    if run.len() == 0 {
        v
    } else {
        let f = run.last();
        after_ingest(after_run(v, run.drop_last()), f.key, f.index, f.total, f.payload)
    }
}

/// What a chunk's fragment of a number held when it last came in, if it has.
pub open spec fn latest_piece(run: Seq<Fragment>, key: u64, index: int) -> Option<Seq<u8>>
    decreases run.len(),
{
    if run.len() == 0 {
        None
    } else if run.last().key == key && run.last().index == index {
        Some(run.last().payload)
    } else {
        latest_piece(run.drop_last(), key, index)
    }
}

/// The same for all fragments of a chunk.
pub open spec fn latest_pieces(run: Seq<Fragment>, key: u64, total: u16) -> Seq<Option<Seq<u8>>> {
    Seq::new(total as nat, |i: int| latest_piece(run, key, i))
}

/// Whether all fragments of a chunk in a run were announced with the same total.
pub open spec fn agree_on_total(run: Seq<Fragment>, key: u64, total: u16) -> bool {
    forall|k: int| 0 <= k < run.len() && (#[trigger] run[k]).key == key ==> run[k].total == total
}

/// Whether each fragment of a chunk in a run holds the piece of its number.
pub open spec fn carry(run: Seq<Fragment>, key: u64, pieces: Seq<Seq<u8>>) -> bool {
    forall|k: int|
        0 <= k < run.len() && (#[trigger] run[k]).key == key ==> run[k].index < pieces.len()
            && run[k].payload == pieces[run[k].index as int]
}

/// A fragment of one chunk changes nothing about the others.
pub proof fn law_chunks_are_assembled_apart(
    v: Map<u64, Assembly>,
    key: u64,
    other: u64,
    index: u16,
    total: u16,
    payload: Seq<u8>,
)
    requires
        key != other,
    ensures
        after_ingest(v, key, index, total, payload).contains_key(other) == v.contains_key(other),
        v.contains_key(other) ==> after_ingest(v, key, index, total, payload)[other] == v[other],
{
}

proof fn lemma_run_fills(v: Map<u64, Assembly>, key: u64, total: u16, run: Seq<Fragment>)
    requires
        total >= 1,
        !v.contains_key(key) || v[key].total != total,
        agree_on_total(run, key, total),
        !all_filled(latest_pieces(run, key, total)),
    ensures
        slots_before(after_run(v, run), key, total) == latest_pieces(run, key, total),
    decreases run.len(),
{
    let now = latest_pieces(run, key, total);
    if run.len() == 0 {
        assert(slots_before(v, key, total) =~= now);
    } else {
        let rest = run.drop_last();
        let f = run.last();
        let before = latest_pieces(rest, key, total);
        assert(run[run.len() - 1] == f);
        assert forall|k: int| 0 <= k < rest.len() && (#[trigger] rest[k]).key
            == key implies rest[k].total == total by {
            assert(rest[k] == run[k]);
        }
        let i = choose|i: int| 0 <= i < now.len() && (#[trigger] now[i]) is None;
        assert(before[i] is None);
        lemma_run_fills(v, key, total, rest);
        let earlier = after_run(v, rest);
        if f.key == key {
            let slots = slots_after(earlier, key, f.index, total, f.payload);
            assert(slots =~= now);
            assert(!completes(earlier, key, f.index, total, f.payload));
        } else {
            law_chunks_are_assembled_apart(earlier, f.key, key, f.index, f.total, f.payload);
            assert(before =~= now);
        }
    }
}

proof fn lemma_join_of_all(pieces: Seq<Seq<u8>>, slots: Seq<Option<Seq<u8>>>)
    requires
        slots.len() == pieces.len(),
        forall|i: int| 0 <= i < slots.len() ==> #[trigger] slots[i] == Some(pieces[i]),
    ensures
        joined(slots) == pieces.flatten(),
    decreases pieces.len(),
{
    if pieces.len() > 0 {
        lemma_join_of_all(pieces.drop_last(), slots.drop_last());
        pieces.lemma_flatten_and_flatten_alt_are_equivalent();
        pieces.drop_last().lemma_flatten_and_flatten_alt_are_equivalent();
        assert(slots[slots.len() - 1] == Some(pieces.last()));
    } else {
        assert(pieces.flatten() =~= Seq::empty());
    }
}

/// Fragments come in in any order, any of them several times, with fragments of other chunks in
/// between. The first one that leaves none of its chunk missing yields the chunk: what each
/// fragment held when it last came in, joined in the order of their numbers. No fragment before it
/// yields anything, and after it the chunk begins anew.
pub proof fn law_latest_pieces_are_joined(
    v: Map<u64, Assembly>,
    run: Seq<Fragment>,
    last: Fragment,
)
    requires
        last.total >= 1,
        !v.contains_key(last.key) || v[last.key].total != last.total,
        agree_on_total(run, last.key, last.total),
        !all_filled(latest_pieces(run, last.key, last.total)),
    ensures
        ({
            let pieces = latest_pieces(run.push(last), last.key, last.total);
            let w = after_run(v, run);
            &&& ingest_result(w, last.key, last.index, last.total, last.payload) == if all_filled(
                pieces,
            ) {
                Some(joined(pieces))
            } else {
                None
            }
            &&& all_filled(pieces) ==> !after_ingest(
                w,
                last.key,
                last.index,
                last.total,
                last.payload,
            ).contains_key(last.key)
        }),
{
    let whole = run.push(last);
    assert(whole.drop_last() =~= run);
    lemma_run_fills(v, last.key, last.total, run);
    let now = slots_after(after_run(v, run), last.key, last.index, last.total, last.payload);
    assert(now =~= latest_pieces(whole, last.key, last.total));
}

proof fn lemma_carried(run: Seq<Fragment>, key: u64, pieces: Seq<Seq<u8>>, index: int)
    requires
        carry(run, key, pieces),
        latest_piece(run, key, index) is Some,
    ensures
        latest_piece(run, key, index) == Some(pieces[index]),
    decreases run.len(),
{
    if run.len() > 0 {
        let rest = run.drop_last();
        assert(run[run.len() - 1] == run.last());
        if !(run.last().key == key && run.last().index == index) {
            assert forall|k: int| 0 <= k < rest.len() && (#[trigger] rest[k]).key
                == key implies rest[k].index < pieces.len() && rest[k].payload
                == pieces[rest[k].index as int] by {
                assert(rest[k] == run[k]);
            }
            lemma_carried(rest, key, pieces, index);
        }
    }
}

/// A chunk that was cut into pieces comes back whole whatever the order in which the pieces
/// arrive, however often one is sent again and whatever arrives of other chunks in between: the
/// arrival that brings the last missing piece yields all of them in their order, and no arrival
/// before it yields anything.
pub proof fn law_pieces_come_back_whole(
    v: Map<u64, Assembly>,
    pieces: Seq<Seq<u8>>,
    run: Seq<Fragment>,
    last: Fragment,
)
    requires
        1 <= pieces.len() <= u16::MAX,
        last.total == pieces.len(),
        !v.contains_key(last.key) || v[last.key].total != last.total,
        agree_on_total(run, last.key, last.total),
        carry(run.push(last), last.key, pieces),
        !all_filled(latest_pieces(run, last.key, last.total)),
    ensures
        ingest_result(
            after_run(v, run),
            last.key,
            last.index,
            last.total,
            last.payload,
        ) == if all_filled(latest_pieces(run.push(last), last.key, last.total)) {
            Some(pieces.flatten())
        } else {
            None
        },
{
    law_latest_pieces_are_joined(v, run, last);
    let whole = run.push(last);
    let slots = latest_pieces(whole, last.key, last.total);
    if all_filled(slots) {
        assert forall|i: int| 0 <= i < slots.len() implies #[trigger] slots[i] == Some(
            pieces[i],
        ) by {
            assert(slots[i] is Some);
            lemma_carried(whole, last.key, pieces, i);
        }
        lemma_join_of_all(pieces, slots);
    }
}

impl PartialAssemble {
    spec fn slots(&self) -> Seq<Option<Seq<u8>>> {
        Seq::new(self.fragments@.len(), |i: int| bytes_of(self.fragments@[i]))
    }

    spec fn view(&self) -> Assembly {
        Assembly { total: self.frag_total, slots: self.slots() }
    }

    spec fn wf(&self) -> bool {
        self.frag_total >= 1 && self.fragments@.len() == self.frag_total
    }

    fn new(frag_total: u16) -> (r: PartialAssemble)
        requires
            frag_total >= 1,
        ensures
            r.wf(),
            r.view() == (Assembly { total: frag_total, slots: empty_slots(frag_total) }),
    {
        let mut fragments: Vec<Option<Vec<u8>>> = Vec::new();
        let mut i: u16 = 0;
        while i < frag_total
            invariant
                i <= frag_total,
                fragments@.len() == i,
                forall|k: int| 0 <= k < i ==> (#[trigger] fragments@[k]) is None,
            decreases frag_total - i,
        {
            fragments.push(None);
            i = i + 1;
        }
        let r = PartialAssemble { frag_total, fragments };
        proof {
            assert(r.slots() =~= empty_slots(frag_total));
        }
        r
    }

    fn is_complete(&self) -> (r: bool)
        ensures
            r == all_filled(self.slots()),
    {
        let mut i: usize = 0;
        while i < self.fragments.len()
            invariant
                i <= self.fragments@.len(),
                forall|k: int| 0 <= k < i ==> (#[trigger] self.slots()[k]) is Some,
            decreases self.fragments@.len() - i,
        {
            if self.fragments[i].is_none() {
                proof {
                    assert(self.slots()[i as int] is None);
                }
                return false;
            }
            i = i + 1;
        }
        true
    }

    fn concat(&self) -> (r: Vec<u8>)
        ensures
            r@ == joined(self.slots()),
    {
        let mut out: Vec<u8> = Vec::new();
        let mut i: usize = 0;
        proof {
            assert(self.slots().take(0) =~= Seq::empty());
        }
        while i < self.fragments.len()
            invariant
                i <= self.fragments@.len(),
                out@ == joined(self.slots().take(i as int)),
            decreases self.fragments@.len() - i,
        {
            let ghost done = self.slots().take(i as int);
            proof {
                let next = self.slots().take(i + 1);
                assert(next.drop_last() =~= done);
                assert(next.last() == bytes_of(self.fragments@[i as int]));
            }
            if let Some(bytes) = &self.fragments[i] {
                let mut k: usize = 0;
                proof {
                    assert(joined(done) + bytes@.take(0) =~= joined(done));
                }
                while k < bytes.len()
                    invariant
                        k <= bytes@.len(),
                        out@ == joined(done) + bytes@.take(k as int),
                    decreases bytes@.len() - k,
                {
                    out.push(bytes[k]);
                    k = k + 1;
                    proof {
                        assert(out@ =~= joined(done) + bytes@.take(k as int));
                    }
                }
                proof {
                    assert(bytes@.take(bytes@.len() as int) =~= bytes@);
                }
            }
            i = i + 1;
        }
        proof {
            assert(self.slots().take(i as int) =~= self.slots());
        }
        out
    }
}

impl View for ChunkAssembler {
    type V = Map<u64, Assembly>;

    closed spec fn view(&self) -> Map<u64, Assembly> {
        self.partials@.map_values(|p: PartialAssemble| p.view())
    }
}

impl ChunkAssembler {
    #[verifier::type_invariant]
    spec fn wf(self) -> bool {
        forall|k: u64| #[trigger] self.partials@.contains_key(k) ==> self.partials@[k].wf()
    }

    /// An assembler with nothing in it.
    pub fn new() -> (r: ChunkAssembler)
        ensures
            r@ == Map::<u64, Assembly>::empty(),
    {
        let r = ChunkAssembler { partials: HashMap::new() };
        proof {
            assert(r@ =~= Map::empty());
        }
        r
    }

    /// Takes in a fragment, and gives the whole chunk back once nothing is missing.
    pub fn ingest(&mut self, pos: ChunkPos, frag_index: u16, frag_total: u16, payload: Vec<u8>) -> (
    r: Option<Vec<u8>>)
        ensures
            final(self)@ == after_ingest(
                old(self)@,
                chunk::chunk_key(pos),
                frag_index,
                frag_total,
                payload@,
            ),
            bytes_of(r) == ingest_result(
                old(self)@,
                chunk::chunk_key(pos),
                frag_index,
                frag_total,
                payload@,
            ),
    {
        let ghost before = self@;
        let ghost bytes = payload@;
        proof {
            use_type_invariant(&*self);
        }
        let key: u64 = pos.key();
        let mut partials: HashMap<u64, PartialAssemble> = HashMap::new();
        std::mem::swap(&mut partials, &mut self.partials);
        let slots: u16 = if frag_total == 0 {
            1
        } else {
            frag_total
        };
        let mut entry = match partials.remove(&key) {
            Some(partial) => if partial.frag_total != frag_total {
                PartialAssemble::new(slots)
            } else {
                partial
            },
            None => PartialAssemble::new(slots),
        };
        let ghost rest = partials@;
        let ghost start = slots_before(before, key, frag_total);
        proof {
            assert(entry.slots() =~= start);
            assert(rest.map_values(|p: PartialAssemble| p.view()) =~= before.remove(key));
        }
        let in_range = (frag_index as usize) < entry.fragments.len();
        if in_range {
            entry.fragments.set(frag_index as usize, Some(payload));
            proof {
                assert(entry.slots() =~= start.update(frag_index as int, Some(bytes)));
            }
        }
        proof {
            assert(entry.slots() == slots_after(before, key, frag_index, frag_total, bytes));
        }
        if in_range && entry.is_complete() {
            let whole = entry.concat();
            self.partials = partials;
            proof {
                assert(self@ =~= after_ingest(before, key, frag_index, frag_total, bytes));
            }
            Some(whole)
        } else {
            partials.insert(key, entry);
            self.partials = partials;
            proof {
                assert(self@ =~= after_ingest(before, key, frag_index, frag_total, bytes));
            }
            None
        }
    }

    /// Forgets what has been collected of a chunk.
    pub fn cancel(&mut self, pos: ChunkPos)
        ensures
            final(self)@ == old(self)@.remove(chunk::chunk_key(pos)),
    {
        let ghost before = self@;
        proof {
            use_type_invariant(&*self);
        }
        let mut partials: HashMap<u64, PartialAssemble> = HashMap::new();
        std::mem::swap(&mut partials, &mut self.partials);
        partials.remove(&pos.key());
        self.partials = partials;
        proof {
            assert(self@ =~= before.remove(chunk::chunk_key(pos)));
        }
    }

    /// How many chunks are being put together.
    pub fn len(&self) -> (r: usize)
        ensures
            r == self@.dom().len(),
    {
        proof {
            assert(self@.dom() =~= self.partials@.dom());
        }
        self.partials.len()
    }

    pub fn is_empty(&self) -> (r: bool)
        ensures
            r == (self@.dom().len() == 0),
    {
        self.len() == 0
    }
}

} // verus!
