//! What the client has done ahead of the host's word: block changes that wait for an answer, and
//! the positions predicted for each input.
use std::collections::{HashMap, VecDeque};

use vstd::prelude::*;

use crate::block::{BlockID, MaterialCell};
use crate::chunk::Position;
use crate::protocol::Vec3Bits;

verus! {

broadcast use vstd::std_specs::hash::group_hash_axioms;

/// What was done to a block.
#[derive(Copy, Clone, Debug, PartialEq, Eq, Structural)]
pub enum PendingKind {
    Break,
    Place(BlockID),
}

/// A block change that has not been answered yet.
#[derive(Copy, Clone, Debug, PartialEq, Eq, Structural)]
pub struct PendingAction {
    pub kind: PendingKind,
    pub pos: Position,
    /// The cell before the change, to be written back if the host refuses.
    pub backup: MaterialCell,
}

/// All block changes that have not been answered yet, by the number of their request.
pub struct PendingActions {
    map: HashMap<u32, PendingAction>,
    next_request_id: u32,
}

/// The position predicted for an input.
#[derive(Copy, Clone, Debug, PartialEq, Eq, Structural)]
pub struct InputRecord {
    pub tick: u32,
    pub position: Vec3Bits,
}

/// The positions predicted for the latest inputs, the oldest first.
pub struct InputHistory {
    records: VecDeque<InputRecord>,
    cap: usize,
}

/// The unanswered changes, as mathematics.
#[verifier::ext_equal]
pub struct PendingView {
    pub open: Map<u32, PendingAction>,
    pub next: u32,
}

/// The number after another, where zero is never given out.
pub open spec fn next_id(id: u32) -> u32 {
    if id == u32::MAX {
        1
    } else {
        (id + 1) as u32
    }
}

/// The number after another, where zero is never given out.
pub fn id_after(id: u32) -> (r: u32)
    ensures
        r == next_id(id),
{
    if id == u32::MAX {
        1
    } else {
        id + 1
    }
}

/// The numbers given out in a row.
pub open spec fn id_after_steps(id: u32, n: nat) -> u32
    decreases n,
{
    if n == 0 {
        id
    } else {
        next_id(id_after_steps(id, (n - 1) as nat))
    }
}

/// Zero never stands for a request, and a number comes back only after all others were given out.
pub proof fn law_request_ids_are_fresh(id: u32, n: nat)
    requires
        id >= 1,
        0 < n < u32::MAX,
    ensures
        id_after_steps(id, n) >= 1,
        id_after_steps(id, n) != id,
{
    lemma_id_steps(id, n);
}

proof fn lemma_id_steps(id: u32, n: nat)
    requires
        id >= 1,
        n < u32::MAX,
    ensures
        id_after_steps(id, n) as int == if id + n <= u32::MAX {
            id + n
        } else {
            id + n - u32::MAX
        },
    decreases n,
{
    if n > 0 {
        lemma_id_steps(id, (n - 1) as nat);
    }
}

/// A refused change gives back what was there before; an accepted one gives nothing back. Either
/// way it is answered once.
pub proof fn law_answer_after_request(v: PendingView, id: u32, action: PendingAction, accepted: bool)
    ensures
        answer(v.open.insert(id, action), id, accepted) == if accepted {
            None
        } else {
            Some(action)
        },
        answer(v.open.insert(id, action).remove(id), id, accepted) is None,
{
}

/// What an answer of the host gives back.
pub open spec fn answer(open: Map<u32, PendingAction>, id: u32, accepted: bool) -> Option<
    PendingAction,
> {
    if open.contains_key(id) && !accepted {
        Some(open[id])
    } else {
        None
    }
}

impl View for PendingActions {
    type V = PendingView;

    closed spec fn view(&self) -> PendingView {
        PendingView { open: self.map@, next: self.next_request_id }
    }
}

impl PendingActions {
    /// Nothing waits, and the first request has the number one.
    pub fn new() -> (r: PendingActions)
        ensures
            r@ == (PendingView { open: Map::empty(), next: 1 }),
    {
        PendingActions { map: HashMap::new(), next_request_id: 1 }
    }

    /// The number of the next request.
    pub fn next_request_id(&mut self) -> (r: u32)
        ensures
            r == old(self)@.next,
            final(self)@ == (PendingView { next: next_id(old(self)@.next), ..old(self)@ }),
    {
        let id: u32 = self.next_request_id;
        self.next_request_id = id_after(id);
        id
    }

    /// Keeps a change until it is answered.
    pub fn insert(&mut self, request_id: u32, action: PendingAction)
        ensures
            final(self)@ == (PendingView {
                open: old(self)@.open.insert(request_id, action),
                ..old(self)@
            }),
    {
        self.map.insert(request_id, action);
    }

    /// Takes up the host's answer to a request, and gives back the change that has to be undone if
    /// it was refused.
    pub fn resolve(&mut self, request_id: u32, accepted: bool) -> (r: Option<PendingAction>)
        ensures
            r == answer(old(self)@.open, request_id, accepted),
            final(self)@ == (PendingView {
                open: old(self)@.open.remove(request_id),
                ..old(self)@
            }),
    {
        let ghost before = self@;
        let removed = self.map.remove(&request_id);
        proof {
            assert(self@ =~= (PendingView { open: before.open.remove(request_id), ..before }));
        }
        match removed {
            Some(action) => if accepted {
                None
            } else {
                Some(action)
            },
            None => None,
        }
    }

    pub fn len(&self) -> (r: usize)
        ensures
            r == self@.open.len(),
    {
        self.map.len()
    }

    pub fn is_empty(&self) -> (r: bool)
        ensures
            r == (self@.open.len() == 0),
    {
        self.map.len() == 0
    }
}

/// The last entries of a sequence, as many as fit.
pub open spec fn latest<A>(s: Seq<A>, cap: int) -> Seq<A> {
    if s.len() > cap {
        s.skip(s.len() - cap)
    } else {
        s
    }
}

/// How many records at the beginning have been confirmed.
pub open spec fn confirmed(s: Seq<InputRecord>, input_tick: u32) -> int
    decreases s.len(),
{
    if s.len() > 0 && s[0].tick <= input_tick {
        1 + confirmed(s.drop_first(), input_tick)
    } else {
        0
    }
}

/// The position of the first record of an input.
pub open spec fn position_in(s: Seq<InputRecord>, input_tick: u32) -> Option<Vec3Bits>
    decreases s.len(),
{
    if s.len() == 0 {
        None
    } else if s[0].tick == input_tick {
        Some(s[0].position)
    } else {
        position_in(s.drop_first(), input_tick)
    }
}

proof fn lemma_confirmed(s: Seq<InputRecord>, input_tick: u32)
    ensures
        0 <= confirmed(s, input_tick) <= s.len(),
    decreases s.len(),
{
    if s.len() > 0 && s[0].tick <= input_tick {
        lemma_confirmed(s.drop_first(), input_tick);
    }
}

/// Of records in the order of their inputs exactly the unconfirmed ones stay.
pub proof fn law_unconfirmed_records_stay(s: Seq<InputRecord>, input_tick: u32, i: int)
    requires
        forall|a: int, b: int| 0 <= a < b < s.len() ==> s[a].tick <= s[b].tick,
        0 <= i < s.len(),
    ensures
        s[i].tick <= input_tick <==> i < confirmed(s, input_tick),
    decreases s.len(),
{
    lemma_confirmed(s, input_tick);
    if s[0].tick <= input_tick {
        if i > 0 {
            law_unconfirmed_records_stay(s.drop_first(), input_tick, i - 1);
        } else {
            lemma_confirmed(s.drop_first(), input_tick);
        }
    }
}

impl View for InputHistory {
    type V = Seq<InputRecord>;

    closed spec fn view(&self) -> Seq<InputRecord> {
        self.records@
    }
}

impl InputHistory {
    /// How many records are kept.
    pub closed spec fn capacity(&self) -> usize {
        self.cap
    }

    pub fn new(cap: usize) -> (r: InputHistory)
        ensures
            r@ == Seq::<InputRecord>::empty(),
            r.capacity() == cap,
    {
        InputHistory { records: VecDeque::new(), cap }
    }

    /// Adds the position predicted for an input. The oldest records go when there are too many.
    pub fn push(&mut self, tick: u32, position: Vec3Bits)
        ensures
            final(self)@ == latest(
                old(self)@.push(InputRecord { tick, position }),
                old(self).capacity() as int,
            ),
            final(self).capacity() == old(self).capacity(),
    {
        let ghost all = self@.push(InputRecord { tick, position });
        self.records.push_back(InputRecord { tick, position });
        let ghost mut gone: int = 0;
        proof {
            assert(all.skip(0) =~= all);
        }
        while self.records.len() > self.cap
            invariant
                0 <= gone <= all.len(),
                self.records@ == all.skip(gone),
                gone > 0 ==> all.len() - gone >= self.cap,
                self.cap == old(self).cap,
            decreases self.records@.len(),
        {
            self.records.pop_front();
            proof {
                assert(self.records@ =~= all.skip(gone + 1));
                gone = gone + 1;
            }
        }
        proof {
            assert(self@ =~= latest(all, self.cap as int));
        }
    }

    /// Forgets the records of the inputs that the host has confirmed.
    pub fn drop_until(&mut self, input_tick: u32)
        ensures
            final(self)@ == old(self)@.skip(confirmed(old(self)@, input_tick)),
            final(self).capacity() == old(self).capacity(),
    {
        let ghost all = self@;
        let ghost mut gone: int = 0;
        proof {
            assert(all.skip(0) =~= all);
            lemma_confirmed(all, input_tick);
        }
        while self.records.len() > 0 && self.records[0].tick <= input_tick
            invariant
                0 <= gone <= all.len(),
                self.records@ == all.skip(gone),
                confirmed(all, input_tick) == gone + confirmed(all.skip(gone), input_tick),
                self.cap == old(self).cap,
            ensures
                0 <= gone <= all.len(),
                self.records@ == all.skip(gone),
                confirmed(all, input_tick) == gone + confirmed(all.skip(gone), input_tick),
                self.cap == old(self).cap,
                !(self.records@.len() > 0 && self.records@[0].tick <= input_tick),
            decreases self.records@.len(),
        {
            self.records.pop_front();
            proof {
                assert(all.skip(gone).drop_first() =~= all.skip(gone + 1));
                assert(self.records@ =~= all.skip(gone + 1));
                gone = gone + 1;
            }
        }
    }

    /// The position predicted for an input.
    pub fn position_at(&self, input_tick: u32) -> (r: Option<Vec3Bits>)
        ensures
            r == position_in(self@, input_tick),
    {
        let mut i: usize = 0;
        proof {
            assert(self@.skip(0) =~= self@);
        }
        while i < self.records.len()
            invariant
                i <= self.records@.len(),
                position_in(self@, input_tick) == position_in(self@.skip(i as int), input_tick),
            decreases self.records@.len() - i,
        {
            let record = self.records[i];
            if record.tick == input_tick {
                return Some(record.position);
            }
            proof {
                assert(self@.skip(i as int).drop_first() =~= self@.skip(i + 1));
            }
            i = i + 1;
        }
        None
    }

    /// Takes up the confirmation of an input: the position predicted for it, if it is on record.
    /// What the host has confirmed is forgotten either way.
    pub fn acknowledge(&mut self, input_tick: u32) -> (r: Option<Vec3Bits>)
        ensures
            r == position_in(old(self)@, input_tick),
            final(self)@ == old(self)@.skip(confirmed(old(self)@, input_tick)),
            final(self).capacity() == old(self).capacity(),
    {
        let predicted = self.position_at(input_tick);
        self.drop_until(input_tick);
        predicted
    }

    /// A record, by its place.
    pub fn get(&self, i: usize) -> (r: Option<InputRecord>)
        ensures
            r == (if i < self@.len() {
                Some(self@[i as int])
            } else {
                None
            }),
    {
        if i < self.records.len() {
            Some(self.records[i])
        } else {
            None
        }
    }

    /// Corrects the positions of all records.
    pub fn set_positions(&mut self, positions: &Vec<Vec3Bits>)
        requires
            positions@.len() == old(self)@.len(),
        ensures
            final(self)@ == Seq::new(
                old(self)@.len(),
                |i: int| InputRecord { tick: old(self)@[i].tick, position: positions@[i] },
            ),
            final(self).capacity() == old(self).capacity(),
    {
        let ghost before = self@;
        let mut moved: VecDeque<InputRecord> = VecDeque::new();
        let mut i: usize = 0;
        while i < self.records.len()
            invariant
                i <= self.records@.len(),
                self.records@ == before,
                positions@.len() == before.len(),
                self.cap == old(self).cap,
                moved@.len() == i,
                forall|k: int|
                    0 <= k < i ==> #[trigger] moved@[k] == (InputRecord {
                        tick: before[k].tick,
                        position: positions@[k],
                    }),
            decreases self.records@.len() - i,
        {
            moved.push_back(InputRecord { tick: self.records[i].tick, position: positions[i] });
            i = i + 1;
        }
        self.records = moved;
        proof {
            assert(self@ =~= Seq::new(
                before.len(),
                |i: int| InputRecord { tick: before[i].tick, position: positions@[i] },
            ));
        }
    }

    pub fn len(&self) -> (r: usize)
        ensures
            r == self@.len(),
    {
        self.records.len()
    }

    pub fn is_empty(&self) -> (r: bool)
        ensures
            r == (self@.len() == 0),
    {
        self.records.len() == 0
    }
}

/// Requests are numbered one after another from one on; after the last number they begin again
/// with one, and none ever has the number zero.
pub proof fn law_requests_are_counted(id: u32)
    ensures
        id < u32::MAX ==> next_id(id) == id + 1,
        id == u32::MAX ==> next_id(id) == 1,
        next_id(id) != 0,
{
}

/// The latest of a sequence are its end, in its order: as many as there is room for, or all.
pub proof fn law_the_latest_are_the_end<A>(s: Seq<A>, cap: int, i: int)
    requires
        cap >= 0,
    ensures
        latest(s, cap).len() <= cap,
        latest(s, cap).len() <= s.len(),
        latest(s, cap).len() == cap || latest(s, cap).len() == s.len(),
        0 <= i < latest(s, cap).len() ==> latest(s, cap)[i] == s[s.len() - latest(s, cap).len() + i],
{
}

/// A predicted position is found under the number of its step: it is that of the first record with
/// the number, and none is found only where there is no such record.
pub proof fn law_predictions_are_found_by_their_step(s: Seq<InputRecord>, input_tick: u32)
    ensures
        match position_in(s, input_tick) {
            Some(position) => exists|i: int|
                0 <= i < s.len() && (#[trigger] s[i]).tick == input_tick && s[i].position == position
                    && forall|j: int| 0 <= j < i ==> (#[trigger] s[j]).tick != input_tick,
            None => forall|i: int| 0 <= i < s.len() ==> (#[trigger] s[i]).tick != input_tick,
        },
    decreases s.len(),
{
    if s.len() > 0 && s[0].tick != input_tick {
        let rest = s.drop_first();
        law_predictions_are_found_by_their_step(rest, input_tick);
        assert forall|j: int| 0 <= j < rest.len() implies (#[trigger] rest[j]) == s[j + 1] by {}
        if position_in(s, input_tick) is Some {
            let i = choose|i: int|
                0 <= i < rest.len() && (#[trigger] rest[i]).tick == input_tick && rest[i].position
                    == position_in(rest, input_tick)->0 && forall|j: int|
                    0 <= j < i ==> (#[trigger] rest[j]).tick != input_tick;
            assert(s[i + 1].tick == input_tick);
            assert forall|j: int| 0 <= j < i + 1 implies (#[trigger] s[j]).tick != input_tick by {
                if j > 0 {
                    assert(rest[j - 1].tick != input_tick);
                }
            }
        } else {
            assert forall|i: int| 0 <= i < s.len() implies (#[trigger] s[i]).tick != input_tick by {
                if i > 0 {
                    assert(rest[i - 1].tick != input_tick);
                }
            }
        }
    } else if s.len() > 0 {
        assert(s[0].tick == input_tick);
    }
}

/// What was predicted for a step is found until the step is confirmed, and not any more after
/// that, as long as the steps are recorded in the order of their numbers.
pub proof fn law_confirmed_steps_are_forgotten(s: Seq<InputRecord>, confirmed_tick: u32, tick: u32)
    requires
        forall|a: int, b: int| 0 <= a < b < s.len() ==> s[a].tick < s[b].tick,
    ensures
        position_in(s.skip(confirmed(s, confirmed_tick)), tick) == if tick <= confirmed_tick {
            None
        } else {
            position_in(s, tick)
        },
    decreases s.len(),
{
    if s.len() > 0 && s[0].tick <= confirmed_tick {
        let rest = s.drop_first();
        assert forall|a: int, b: int| 0 <= a < b < rest.len() implies rest[a].tick
            < rest[b].tick by {
            assert(s[a + 1].tick < s[b + 1].tick);
        }
        law_confirmed_steps_are_forgotten(rest, confirmed_tick, tick);
        lemma_confirmed(rest, confirmed_tick);
        assert(s.skip(confirmed(s, confirmed_tick)) =~= rest.skip(confirmed(rest, confirmed_tick)));
    } else {
        assert(s.skip(0) =~= s);
        law_predictions_are_found_by_their_step(s, tick);
        if s.len() > 0 && tick <= confirmed_tick && position_in(s, tick) is Some {
            let i = choose|i: int| 0 <= i < s.len() && (#[trigger] s[i]).tick == tick;
            if i > 0 {
                assert(s[0].tick < s[i].tick);
            }
        }
    }
}

/// Only a refused request has something to be put back, and it is what the request was kept with.
pub proof fn law_only_refusals_are_undone(open: Map<u32, PendingAction>, id: u32, accepted: bool)
    ensures
        answer(open, id, accepted) is Some <==> !accepted && open.contains_key(id),
        answer(open, id, accepted) matches Some(action) ==> action == open[id],
{
}

} // verus!
