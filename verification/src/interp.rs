//! The latest reported positions of the other players, from which their movement is drawn.
use std::collections::HashMap;

use vstd::prelude::*;

use crate::maps;
use crate::maps::keys_of;
use crate::prediction;
use crate::protocol::Vec3Bits;

verus! {

broadcast use vstd::std_specs::hash::group_hash_axioms;

/// How many reports are kept of a player.
pub const SAMPLE_CAP: usize = 20;

/// Where a player was at some time of the host's clock.
#[derive(Copy, Clone, Debug, PartialEq, Eq, Structural)]
pub struct Sample {
    pub server_time_ms: u64,
    pub position: Vec3Bits,
    /// The bits of the angles.
    pub yaw: u32,
    pub pitch: u32,
}

/// The reports around a time.
#[derive(Copy, Clone, Debug, PartialEq, Eq, Structural)]
pub enum Bracket {
    /// The time is not after the first report, or there is only one.
    At { sample: Sample },
    /// The time lies between two reports.
    Between { a: Sample, b: Sample },
    /// The time is after the last report.
    After { prev: Sample, latest: Sample },
}

/// The reports of one player, in the order of their times.
struct RemoteBuffer {
    buf: Vec<Sample>,
}

/// The reports of all other players.
pub struct PlayerInterp {
    buffers: HashMap<u32, RemoteBuffer>,
}

/// Reports in the order of their times, no two of the same time.
pub open spec fn is_timeline(s: Seq<Sample>) -> bool {
    forall|i: int, j: int|
        0 <= i < j < s.len() ==> #[trigger] s[i].server_time_ms < #[trigger] s[j].server_time_ms
}

/// Reports with one more, in its place. It takes the place of one of the same time.
pub open spec fn placed(s: Seq<Sample>, x: Sample) -> Seq<Sample>
    decreases s.len(),
{
    if s.len() == 0 {
        seq![x]
    } else if s.last().server_time_ms < x.server_time_ms {
        s.push(x)
    } else if s.last().server_time_ms == x.server_time_ms {
        s.drop_last().push(x)
    } else {
        placed(s.drop_last(), x).push(s.last())
    }
}

/// Reports with one more, as many as are kept.
pub open spec fn with_sample(s: Seq<Sample>, x: Sample) -> Seq<Sample> {
    prediction::latest(placed(s, x), SAMPLE_CAP as int)
}

/// How many reports are before a time.
pub open spec fn before_time(s: Seq<Sample>, time_ms: u64) -> int
    decreases s.len(),
{
    if s.len() == 0 {
        0
    } else if s.last().server_time_ms < time_ms {
        s.len() as int
    } else {
        before_time(s.drop_last(), time_ms)
    }
}

/// The reports around a time.
pub open spec fn bracket_of(s: Seq<Sample>, time_ms: u64) -> Option<Bracket> {
    let n = before_time(s, time_ms);
    if s.len() == 0 {
        None
    } else if s.len() == 1 || n == 0 {
        Some(Bracket::At { sample: s[0] })
    } else if n >= s.len() {
        Some(Bracket::After { prev: s[s.len() - 2], latest: s[s.len() - 1] })
    } else {
        Some(Bracket::Between { a: s[n - 1], b: s[n] })
    }
}

proof fn lemma_placed(s: Seq<Sample>, x: Sample)
    requires
        is_timeline(s),
    ensures
        is_timeline(placed(s, x)),
        placed(s, x).len() > 0,
        s.len() <= placed(s, x).len() <= s.len() + 1,
        placed(s, x).contains(x),
        placed(s, x).last().server_time_ms == (if s.len() > 0 && s.last().server_time_ms
            > x.server_time_ms {
            s.last().server_time_ms
        } else {
            x.server_time_ms
        }),
    decreases s.len(),
{
    if s.len() == 0 {
        assert(placed(s, x)[0] == x);
    } else if s.last().server_time_ms < x.server_time_ms {
        assert(placed(s, x)[s.len() as int] == x);
        assert forall|i: int, j: int| 0 <= i < j < placed(s, x).len() implies #[trigger] placed(
            s,
            x,
        )[i].server_time_ms < #[trigger] placed(s, x)[j].server_time_ms by {
            if j == s.len() && i < s.len() - 1 {
                assert(s[i].server_time_ms < s[s.len() - 1].server_time_ms);
            }
        }
    } else if s.last().server_time_ms == x.server_time_ms {
        assert(placed(s, x)[s.len() - 1] == x);
        assert forall|i: int, j: int| 0 <= i < j < placed(s, x).len() implies #[trigger] placed(
            s,
            x,
        )[i].server_time_ms < #[trigger] placed(s, x)[j].server_time_ms by {
            assert(s[i].server_time_ms < s[j].server_time_ms);
        }
    } else {
        let rest = s.drop_last();
        lemma_placed(rest, x);
        let r = placed(rest, x);
        let p = placed(s, x);
        assert(p == r.push(s.last()));
        let k = choose|k: int| 0 <= k < r.len() && r[k] == x;
        assert(p[k] == x);
        assert(r.last().server_time_ms < s.last().server_time_ms) by {
            if rest.len() > 0 {
                assert(s[rest.len() - 1].server_time_ms < s[s.len() - 1].server_time_ms);
            }
        }
        assert forall|i: int, j: int| 0 <= i < j < p.len() implies #[trigger] p[i].server_time_ms
            < #[trigger] p[j].server_time_ms by {
            if j == r.len() && i < r.len() - 1 {
                assert(r[i].server_time_ms < r[r.len() - 1].server_time_ms);
            }
        }
    }
}

/// Reports stay in the order of their times, whatever the order in which they come in, and never
/// more are kept than there is room for. A report that is not older than what is kept is kept.
pub proof fn law_reports_stay_in_order(s: Seq<Sample>, x: Sample)
    requires
        is_timeline(s),
        s.len() <= SAMPLE_CAP,
    ensures
        is_timeline(with_sample(s, x)),
        0 < with_sample(s, x).len() <= SAMPLE_CAP,
        s.len() < SAMPLE_CAP || s[0].server_time_ms <= x.server_time_ms ==> with_sample(
            s,
            x,
        ).contains(x),
{
    lemma_placed(s, x);
    let p = placed(s, x);
    if p.len() > SAMPLE_CAP {
        let kept = p.skip(1);
        assert(with_sample(s, x) =~= kept);
        assert forall|i: int, j: int| 0 <= i < j < kept.len() implies #[trigger]
            kept[i].server_time_ms < #[trigger] kept[j].server_time_ms by {
            assert(p[i + 1].server_time_ms < p[j + 1].server_time_ms);
        }
        if s[0].server_time_ms <= x.server_time_ms {
            lemma_first_stays(s, x);
            let k = choose|k: int| 0 <= k < p.len() && p[k] == x;
            if k == 0 {
                assert(p[0].server_time_ms < p[1].server_time_ms);
            } else {
                assert(kept[k - 1] == x);
            }
        }
    }
}

proof fn lemma_first_stays(s: Seq<Sample>, x: Sample)
    requires
        is_timeline(s),
        s.len() > 0,
        s[0].server_time_ms <= x.server_time_ms,
        placed(s, x).len() > s.len(),
    ensures
        placed(s, x)[0] == s[0],
        s[0].server_time_ms < x.server_time_ms,
    decreases s.len(),
{
    if s.last().server_time_ms > x.server_time_ms {
        let rest = s.drop_last();
        lemma_placed(rest, x);
        if rest.len() == 0 {
            assert(s[0] == s.last());
        } else {
            lemma_first_stays(rest, x);
        }
    } else {
        if s.len() > 1 {
            assert(s[0].server_time_ms < s[s.len() - 1].server_time_ms);
        }
    }
}

proof fn lemma_before_time(s: Seq<Sample>, time_ms: u64)
    requires
        is_timeline(s),
    ensures
        0 <= before_time(s, time_ms) <= s.len(),
        forall|i: int| 0 <= i < s.len() ==> (#[trigger] s[i].server_time_ms < time_ms <==> i
            < before_time(s, time_ms)),
    decreases s.len(),
{
    if s.len() > 0 {
        let rest = s.drop_last();
        lemma_before_time(rest, time_ms);
        assert forall|i: int| 0 <= i < s.len() implies (#[trigger] s[i].server_time_ms < time_ms
            <==> i < before_time(s, time_ms)) by {
            if i < rest.len() {
                assert(rest[i] == s[i]);
                assert(s[i].server_time_ms < s[s.len() - 1].server_time_ms);
            }
        }
    }
}

/// The reports around a time enclose it.
pub proof fn law_bracket_encloses_the_time(s: Seq<Sample>, time_ms: u64)
    requires
        is_timeline(s),
    ensures
        match bracket_of(s, time_ms) {
            None => s.len() == 0,
            Some(Bracket::At { sample }) => s.len() == 1 || time_ms <= sample.server_time_ms,
            Some(Bracket::Between { a, b }) => a.server_time_ms < time_ms <= b.server_time_ms,
            Some(Bracket::After { prev, latest }) => prev.server_time_ms < latest.server_time_ms
                < time_ms,
        },
{
    lemma_before_time(s, time_ms);
    let n = before_time(s, time_ms);
    if s.len() > 0 {
        assert(s[0].server_time_ms < time_ms <==> 0 < n);
        if 0 < n < s.len() {
            assert(s[n - 1].server_time_ms < time_ms);
            assert(!(s[n].server_time_ms < time_ms));
        }
        if s.len() > 1 {
            assert(s[s.len() - 2].server_time_ms < s[s.len() - 1].server_time_ms);
        }
    }
}

impl RemoteBuffer {
    fn push(&mut self, x: Sample)
        requires
            is_timeline(old(self).buf@),
            old(self).buf@.len() <= SAMPLE_CAP,
        ensures
            final(self).buf@ == with_sample(old(self).buf@, x),
    {
        let ghost before = self.buf@;
        let mut i: usize = self.buf.len();
        proof {
            assert(before.take(before.len() as int) =~= before);
            assert(before.skip(before.len() as int) =~= Seq::empty());
            assert(placed(before, x) + Seq::<Sample>::empty() =~= placed(before, x));
        }
        while i > 0 && self.buf[i - 1].server_time_ms > x.server_time_ms
            invariant
                i <= self.buf@.len(),
                self.buf@ == before,
                placed(before, x) == placed(before.take(i as int), x) + before.skip(i as int),
            ensures
                i <= self.buf@.len(),
                self.buf@ == before,
                placed(before, x) == placed(before.take(i as int), x) + before.skip(i as int),
                i > 0 ==> before[i - 1].server_time_ms <= x.server_time_ms,
            decreases i,
        {
            proof {
                let t = before.take(i as int);
                assert(t.last() == before[i - 1]);
                assert(t.drop_last() =~= before.take(i - 1));
                assert(placed(t, x) + before.skip(i as int) =~= placed(before.take(i - 1), x)
                    + before.skip(i - 1));
            }
            i = i - 1;
        }
        let ghost t = before.take(i as int);
        if i > 0 && self.buf[i - 1].server_time_ms == x.server_time_ms {
            self.buf.set(i - 1, x);
            proof {
                assert(t.last() == before[i - 1]);
                assert(self.buf@ =~= placed(before, x));
            }
        } else {
            self.buf.insert(i, x);
            proof {
                if i > 0 {
                    assert(t.last() == before[i - 1]);
                }
                assert(self.buf@ =~= placed(before, x));
            }
        }
        proof {
            lemma_placed(before, x);
        }
        if self.buf.len() > SAMPLE_CAP {
            self.buf.remove(0);
        }
        proof {
            assert(self.buf@ =~= with_sample(before, x));
        }
    }

    fn around(&self, time_ms: u64) -> (r: Option<Bracket>)
        ensures
            r == bracket_of(self.buf@, time_ms),
    {
        let s = &self.buf;
        if s.len() == 0 {
            return None;
        }
        let mut n: usize = s.len();
        proof {
            assert(s@.take(s@.len() as int) =~= s@);
        }
        while n > 0 && s[n - 1].server_time_ms >= time_ms
            invariant
                n <= s@.len(),
                before_time(s@, time_ms) == before_time(s@.take(n as int), time_ms),
            ensures
                n <= s@.len(),
                before_time(s@, time_ms) == before_time(s@.take(n as int), time_ms),
                n > 0 ==> s@[n - 1].server_time_ms < time_ms,
            decreases n,
        {
            proof {
                assert(s@.take(n as int).drop_last() =~= s@.take(n - 1));
                assert(s@.take(n as int).last() == s@[n - 1]);
            }
            n = n - 1;
        }
        proof {
            if n > 0 {
                assert(s@.take(n as int).last() == s@[n - 1]);
            }
            assert(before_time(s@, time_ms) == n);
        }
        if s.len() == 1 || n == 0 {
            Some(Bracket::At { sample: s[0] })
        } else if n >= s.len() {
            Some(Bracket::After { prev: s[s.len() - 2], latest: s[s.len() - 1] })
        } else {
            Some(Bracket::Between { a: s[n - 1], b: s[n] })
        }
    }
}

impl View for PlayerInterp {
    type V = Map<u32, Seq<Sample>>;

    closed spec fn view(&self) -> Map<u32, Seq<Sample>> {
        self.buffers@.map_values(|b: RemoteBuffer| b.buf@)
    }
}

/// The reports of a player; none of one who is not known.
pub open spec fn samples_of(v: Map<u32, Seq<Sample>>, eid: u32) -> Seq<Sample> {
    if v.contains_key(eid) {
        v[eid]
    } else {
        Seq::empty()
    }
}

impl PlayerInterp {
    #[verifier::type_invariant]
    spec fn wf(self) -> bool {
        forall|eid: u32| #[trigger]
            self.buffers@.contains_key(eid) ==> is_timeline(self.buffers@[eid].buf@)
                && self.buffers@[eid].buf@.len() <= SAMPLE_CAP
    }

    /// Nothing has been reported of anybody.
    pub fn new() -> (r: PlayerInterp)
        ensures
            r@ == Map::<u32, Seq<Sample>>::empty(),
    {
        let r = PlayerInterp { buffers: HashMap::new() };
        proof {
            assert(r@ =~= Map::empty());
        }
        r
    }

    /// Takes up a report of a player's position.
    pub fn ingest_tick(
        &mut self,
        eid: u32,
        server_time_ms: u64,
        position: Vec3Bits,
        yaw: u32,
        pitch: u32,
    )
        ensures
            final(self)@ == old(self)@.insert(
                eid,
                with_sample(
                    samples_of(old(self)@, eid),
                    Sample { server_time_ms, position, yaw, pitch },
                ),
            ),
    {
        let ghost before = self@;
        proof {
            use_type_invariant(&*self);
        }
        let x = Sample { server_time_ms, position, yaw, pitch };
        let mut buffers: HashMap<u32, RemoteBuffer> = HashMap::new();
        std::mem::swap(&mut buffers, &mut self.buffers);
        let mut buffer = match buffers.remove(&eid) {
            Some(buffer) => buffer,
            None => RemoteBuffer { buf: Vec::new() },
        };
        proof {
            assert(buffer.buf@ =~= samples_of(before, eid));
            law_reports_stay_in_order(buffer.buf@, x);
        }
        buffer.push(x);
        buffers.insert(eid, buffer);
        self.buffers = buffers;
        proof {
            assert(self@ =~= before.insert(eid, with_sample(samples_of(before, eid), x)));
        }
    }

    /// The reports of a player around a time of the host's clock.
    pub fn around(&self, eid: u32, time_ms: u64) -> (r: Option<Bracket>)
        ensures
            r == bracket_of(samples_of(self@, eid), time_ms),
            is_timeline(samples_of(self@, eid)),
    {
        proof {
            use_type_invariant(self);
        }
        match self.buffers.get(&eid) {
            Some(buffer) => buffer.around(time_ms),
            None => None,
        }
    }

    /// Forgets a player.
    pub fn remove(&mut self, eid: u32)
        ensures
            final(self)@ == old(self)@.remove(eid),
    {
        let ghost before = self@;
        proof {
            use_type_invariant(&*self);
        }
        let mut buffers: HashMap<u32, RemoteBuffer> = HashMap::new();
        std::mem::swap(&mut buffers, &mut self.buffers);
        buffers.remove(&eid);
        self.buffers = buffers;
        proof {
            assert(self@ =~= before.remove(eid));
        }
    }

    /// The players of whom something has been reported, in some order.
    pub fn ids(&self) -> (r: Vec<u32>)
        ensures
            maps::lists_set(r@, self@.dom()),
    {
        proof {
            assert(self@.dom() =~= self.buffers@.dom());
        }
        keys_of(&self.buffers)
    }
}

/// The reports around a time are next to each other: of two reports with the time between them,
/// none that is kept lies strictly between; before all reports it is the first, and after all of
/// them the last two.
pub proof fn law_bracket_reports_are_neighbours(s: Seq<Sample>, time_ms: u64, i: int)
    requires
        is_timeline(s),
        0 <= i < s.len(),
    ensures
        match bracket_of(s, time_ms) {
            None => false,
            Some(Bracket::At { sample }) => s.contains(sample) && sample.server_time_ms
                <= s[i].server_time_ms,
            Some(Bracket::Between { a, b }) => {
                &&& s.contains(a)
                &&& s.contains(b)
                &&& s[i].server_time_ms <= a.server_time_ms || s[i].server_time_ms
                    >= b.server_time_ms
            },
            Some(Bracket::After { prev, latest }) => {
                &&& s.contains(prev)
                &&& s.contains(latest)
                &&& s[i].server_time_ms <= prev.server_time_ms || s[i] == latest
            },
        },
{
    lemma_before_time(s, time_ms);
    let n = before_time(s, time_ms);
    assert(s[0] == s[0]);
    assert(s.contains(s[0]));
    if i > 0 {
        assert(s[0].server_time_ms < s[i].server_time_ms);
    }
    if s.len() > 1 {
        assert(s.contains(s[s.len() - 2]));
        assert(s.contains(s[s.len() - 1]));
        if i < s.len() - 2 {
            assert(s[i].server_time_ms < s[s.len() - 2].server_time_ms);
        }
    }
    if 0 < n < s.len() {
        assert(s.contains(s[n - 1]));
        assert(s.contains(s[n]));
        if i < n - 1 {
            assert(s[i].server_time_ms < s[n - 1].server_time_ms);
        }
        if i > n {
            assert(s[n].server_time_ms < s[i].server_time_ms);
        }
    }
}

proof fn lemma_placed_members(s: Seq<Sample>, x: Sample, y: Sample)
    requires
        is_timeline(s),
    ensures
        placed(s, x).contains(y) <==> y == x || s.contains(y) && y.server_time_ms
            != x.server_time_ms,
    decreases s.len(),
{
    let p = placed(s, x);
    if s.len() == 0 {
        assert(p[0] == x);
    } else {
        let rest = s.drop_last();
        let last = s.last();
        assert(s[s.len() - 1] == last);
        assert forall|i: int| 0 <= i < rest.len() implies (#[trigger] rest[i]).server_time_ms
            < last.server_time_ms by {
            assert(s[i].server_time_ms < s[s.len() - 1].server_time_ms);
        }
        if s.contains(y) && y != last {
            let i = choose|i: int| 0 <= i < s.len() && s[i] == y;
            assert(rest[i] == y);
        }
        if rest.contains(y) {
            let i = choose|i: int| 0 <= i < rest.len() && rest[i] == y;
            assert(s[i] == y);
        }
        if last.server_time_ms < x.server_time_ms {
            assert(p[s.len() as int] == x);
            if s.contains(y) {
                let i = choose|i: int| 0 <= i < s.len() && s[i] == y;
                assert(p[i] == y);
            }
            if p.contains(y) && y != x {
                let i = choose|i: int| 0 <= i < p.len() && p[i] == y;
                assert(s[i] == y);
            }
        } else if last.server_time_ms == x.server_time_ms {
            assert(p[rest.len() as int] == x);
            if rest.contains(y) {
                let i = choose|i: int| 0 <= i < rest.len() && rest[i] == y;
                assert(p[i] == y);
            }
            if p.contains(y) && y != x {
                let i = choose|i: int| 0 <= i < p.len() && p[i] == y;
                assert(rest[i] == y);
            }
        } else {
            lemma_placed_members(rest, x, y);
            let r = placed(rest, x);
            assert(p[r.len() as int] == last);
            if r.contains(y) {
                let i = choose|i: int| 0 <= i < r.len() && r[i] == y;
                assert(p[i] == y);
            }
            if p.contains(y) && y != last {
                let i = choose|i: int| 0 <= i < p.len() && p[i] == y;
                assert(r[i] == y);
            }
        }
    }
}

/// A report that comes in takes the place of one of the same time, and no other report is lost or
/// made up, but that the oldest goes when there are too many.
pub proof fn law_a_report_replaces_only_its_own_time(s: Seq<Sample>, x: Sample, y: Sample)
    requires
        is_timeline(s),
        s.len() <= SAMPLE_CAP,
    ensures
        with_sample(s, x).contains(y) ==> y == x || s.contains(y) && y.server_time_ms
            != x.server_time_ms,
        s.len() < SAMPLE_CAP && s.contains(y) && y.server_time_ms != x.server_time_ms
            ==> with_sample(s, x).contains(y),
        (y == x || s.contains(y) && y.server_time_ms != x.server_time_ms) && !with_sample(
            s,
            x,
        ).contains(y) ==> s.len() == SAMPLE_CAP && forall|k: int|
            0 <= k < with_sample(s, x).len() ==> y.server_time_ms < (#[trigger] with_sample(
                s,
                x,
            )[k]).server_time_ms,
{
    lemma_placed(s, x);
    lemma_placed_members(s, x, y);
    let p = placed(s, x);
    let kept = with_sample(s, x);
    if p.len() > SAMPLE_CAP {
        assert(kept =~= p.skip(1));
        if kept.contains(y) {
            let i = choose|i: int| 0 <= i < kept.len() && kept[i] == y;
            assert(p[i + 1] == y);
        }
        if p.contains(y) && !kept.contains(y) {
            let i = choose|i: int| 0 <= i < p.len() && p[i] == y;
            if i > 0 {
                assert(kept[i - 1] == y);
            }
            assert forall|k: int| 0 <= k < kept.len() implies y.server_time_ms < (
            #[trigger] kept[k]).server_time_ms by {
                assert(p[0].server_time_ms < p[k + 1].server_time_ms);
            }
        }
    }
}

/// Everyone's reports are their own, and someone who is not known has none.
pub proof fn law_reports_belong_to_their_player(
    v: Map<u32, Seq<Sample>>,
    eid: u32,
    other: u32,
    s: Seq<Sample>,
)
    ensures
        samples_of(v.insert(eid, s), eid) == s,
        other != eid ==> samples_of(v.insert(eid, s), other) == samples_of(v, other),
        samples_of(v.remove(eid), eid).len() == 0,
        other != eid ==> samples_of(v.remove(eid), other) == samples_of(v, other),
{
}

} // verus!
