//! The record of a saved world and the list of all saved worlds.
use vstd::prelude::*;
use vstd::string::*;

use crate::chunk::STORAGE_VERSION;
use crate::object::ObjectInFlight;
use crate::protocol::PROTOCOL_VERSION;
use crate::storage::{parse_world_key, MetaRecord, StorageError, WorldRecord, WorldSummary};
use crate::text::{decimal_text, push_decimal, same_text};
use crate::storage;
use crate::text;

verus! {

/// Whether `record` is that of a world that has none yet, opened at time `now`.
///
/// Its seed and its creation time are those of the world's name; a name without them gives seed
/// zero and the present.
pub open spec fn is_fresh_record(record: WorldRecord, key: Seq<char>, now: u64) -> bool {
    &&& record.key@ == key
    &&& record.room_id@ == "local"@
    &&& record.display_name@ == "Unknown"@
    &&& record.updated_at_ms == now
    &&& record.storage_version == STORAGE_VERSION
    &&& record.protocol_version == PROTOCOL_VERSION
    &&& record.active_free_objects@ == Seq::<ObjectInFlight>::empty()
    &&& forall|ts: u64, seed: u64|
        #[trigger] storage::is_world_key(key, ts, seed) ==> record.seed@ == text::decimal(seed as nat)
            && record.created_at_ms == (ts * 1000) % 0x1_0000_0000_0000_0000
    &&& (forall|ts: u64, seed: u64| !#[trigger] storage::is_world_key(key, ts, seed)) ==> record.seed@
        == text::decimal(0) && record.created_at_ms == now
}

/// Whether `after` is `before` with another time of its last change.
pub open spec fn is_touched_record(after: WorldRecord, before: WorldRecord, now: u64) -> bool {
    &&& after.key@ == before.key@
    &&& after.room_id@ == before.room_id@
    &&& after.seed@ == before.seed@
    &&& after.display_name@ == before.display_name@
    &&& after.created_at_ms == before.created_at_ms
    &&& after.updated_at_ms == now
    &&& after.storage_version == before.storage_version
    &&& after.protocol_version == before.protocol_version
    &&& after.active_free_objects@ == before.active_free_objects@
}

/// Whether `record` is that of a world that changed at time `now`, given the one found on disk.
pub open spec fn is_changed_record(
    record: WorldRecord,
    found: Option<WorldRecord>,
    key: Seq<char>,
    now: u64,
) -> bool {
    match found {
        Some(before) => is_touched_record(record, before, now),
        None => is_fresh_record(record, key, now),
    }
}

/// The entry that a record has in the list of worlds.
pub open spec fn is_entry_of(entry: WorldSummary, record: WorldRecord) -> bool {
    &&& entry.key@ == record.key@
    &&& entry.display_name@ == record.display_name@
    &&& entry.updated_at_ms == record.updated_at_ms
    &&& entry.used_bytes == 0
}

/// The entries that do not belong to the world `key`.
pub open spec fn without_key(worlds: Seq<WorldSummary>, key: Seq<char>) -> Seq<WorldSummary>
    decreases worlds.len(),
{
    if worlds.len() == 0 {
        worlds
    } else {
        let rest = without_key(worlds.drop_last(), key);
        if worlds.last().key@ == key {
            rest
        } else {
            rest.push(worlds.last())
        }
    }
}

/// A sorted list with one entry more, behind all entries that are at least as new.
pub open spec fn placed(sorted: Seq<WorldSummary>, entry: WorldSummary) -> Seq<WorldSummary>
    decreases sorted.len(),
{
    if sorted.len() == 0 || sorted.last().updated_at_ms >= entry.updated_at_ms {
        sorted.push(entry)
    } else {
        placed(sorted.drop_last(), entry).push(sorted.last())
    }
}

/// The entries from the newest to the oldest; entries of the same time keep their order.
pub open spec fn newest_first(worlds: Seq<WorldSummary>) -> Seq<WorldSummary>
    decreases worlds.len(),
{
    if worlds.len() == 0 {
        worlds
    } else {
        placed(newest_first(worlds.drop_last()), worlds.last())
    }
}

/// Whether no entry is older than one behind it.
pub open spec fn is_newest_first(worlds: Seq<WorldSummary>) -> bool {
    forall|i: int, j: int|
        0 <= i <= j < worlds.len() ==> (#[trigger] worlds[i]).updated_at_ms >= (
        #[trigger] worlds[j]).updated_at_ms
}

proof fn lemma_placed(sorted: Seq<WorldSummary>, entry: WorldSummary)
    requires
        is_newest_first(sorted),
    ensures
        is_newest_first(placed(sorted, entry)),
        placed(sorted, entry).to_multiset() == sorted.to_multiset().insert(entry),
        forall|i: int|
            0 <= i < placed(sorted, entry).len() ==> (#[trigger] placed(sorted, entry)[i]
                == entry || exists|k: int| 0 <= k < sorted.len() && sorted[k] == placed(
                sorted,
                entry,
            )[i]),
    decreases sorted.len(),
{
    broadcast use vstd::seq_lib::group_to_multiset_ensures;

    if sorted.len() == 0 || sorted.last().updated_at_ms >= entry.updated_at_ms {
        let r = sorted.push(entry);
        assert forall|i: int| 0 <= i < r.len() implies (#[trigger] r[i] == entry || exists|k: int|
            0 <= k < sorted.len() && sorted[k] == r[i]) by {
            if i < sorted.len() {
                assert(sorted[i] == r[i]);
            }
        }
    } else {
        let rest = sorted.drop_last();
        let last = sorted.last();
        lemma_placed(rest, entry);
        let inner = placed(rest, entry);
        let r = inner.push(last);
        assert forall|i: int| 0 <= i < inner.len() implies (#[trigger] inner[i]).updated_at_ms
            >= last.updated_at_ms by {
            assert(inner[i] == entry || exists|k: int| 0 <= k < rest.len() && rest[k] == inner[i]);
            if inner[i] != entry {
                let k = choose|k: int| 0 <= k < rest.len() && rest[k] == inner[i];
                assert(sorted[k].updated_at_ms >= sorted[sorted.len() - 1].updated_at_ms);
            }
        }
        assert(sorted == rest.push(last));
        assert(r.to_multiset() == inner.to_multiset().insert(last));
        assert(r.to_multiset() =~= sorted.to_multiset().insert(entry));
        assert forall|i: int| 0 <= i < r.len() implies (#[trigger] r[i] == entry || exists|k: int|
            0 <= k < sorted.len() && sorted[k] == r[i]) by {
            if i < inner.len() {
                assert(inner[i] == r[i]);
                if inner[i] != entry {
                    let k = choose|k: int| 0 <= k < rest.len() && rest[k] == inner[i];
                    assert(sorted[k] == r[i]);
                }
            } else {
                assert(sorted[sorted.len() - 1] == r[i]);
            }
        }
    }
}

/// Sorting puts the newest world first and neither loses nor adds one.
pub proof fn law_newest_first_is_sorted(worlds: Seq<WorldSummary>)
    ensures
        is_newest_first(newest_first(worlds)),
        newest_first(worlds).to_multiset() == worlds.to_multiset(),
    decreases worlds.len(),
{
    broadcast use vstd::seq_lib::group_to_multiset_ensures;

    if worlds.len() > 0 {
        law_newest_first_is_sorted(worlds.drop_last());
        lemma_placed(newest_first(worlds.drop_last()), worlds.last());
        assert(worlds == worlds.drop_last().push(worlds.last()));
    }
}

/// A world taken off the list has no entry left, and every other entry stays.
pub proof fn law_forgotten_world_is_gone(worlds: Seq<WorldSummary>, key: Seq<char>, i: int)
    ensures
        0 <= i < without_key(worlds, key).len() ==> without_key(worlds, key)[i].key@ != key,
        0 <= i < worlds.len() && worlds[i].key@ != key ==> without_key(worlds, key).contains(
            worlds[i],
        ),
    decreases worlds.len(),
{
    if worlds.len() > 0 {
        let rest = without_key(worlds.drop_last(), key);
        law_forgotten_world_is_gone(worlds.drop_last(), key, i);
        let r = without_key(worlds, key);
        if 0 <= i < worlds.len() && worlds[i].key@ != key {
            if i < worlds.len() - 1 {
                assert(worlds.drop_last()[i] == worlds[i]);
                assert(rest.contains(worlds[i]));
                let k = choose|k: int| 0 <= k < rest.len() && rest[k] == worlds[i];
                assert(r[k] == worlds[i]);
            } else {
                assert(r[rest.len() as int] == worlds[i]);
            }
        }
    }
}

fn copy_text(s: &String) -> (r: String)
    ensures
        r == *s,
{
    s.clone()
}

fn copy_entry(w: &WorldSummary) -> (r: WorldSummary)
    ensures
        r == *w,
{
    WorldSummary {
        key: copy_text(&w.key),
        display_name: copy_text(&w.display_name),
        updated_at_ms: w.updated_at_ms,
        used_bytes: w.used_bytes,
    }
}

/// Sorts worlds from the newest to the oldest.
pub fn sort_newest_first(worlds: &Vec<WorldSummary>) -> (r: Vec<WorldSummary>)
    ensures
        r@ == newest_first(worlds@),
{
    let mut sorted: Vec<WorldSummary> = Vec::new();
    let mut i: usize = 0;
    proof {
        assert(worlds@.take(0) == Seq::<WorldSummary>::empty());
    }
    while i < worlds.len()
        invariant
            i <= worlds@.len(),
            sorted@ == newest_first(worlds@.take(i as int)),
        decreases worlds@.len() - i,
    {
        proof {
            assert(worlds@.take(i + 1).drop_last() == worlds@.take(i as int));
            assert(worlds@.take(i + 1).last() == worlds@[i as int]);
        }
        place(&mut sorted, copy_entry(&worlds[i]));
        i += 1;
    }
    proof {
        assert(worlds@.take(worlds@.len() as int) == worlds@);
    }
    sorted
}

fn place(sorted: &mut Vec<WorldSummary>, entry: WorldSummary)
    ensures
        final(sorted)@ == placed(old(sorted)@, entry),
{
    let ghost whole = sorted@;
    let mut at: usize = sorted.len();
    proof {
        assert(whole.take(whole.len() as int) =~= whole);
        assert(placed(whole, entry) + whole.skip(whole.len() as int) =~= placed(whole, entry));
    }
    while at > 0 && sorted[at - 1].updated_at_ms < entry.updated_at_ms
        invariant
            at <= sorted@.len(),
            sorted@ == whole,
            placed(whole, entry) == placed(whole.take(at as int), entry) + whole.skip(at as int),
        ensures
            at > 0 ==> whole[at - 1].updated_at_ms >= entry.updated_at_ms,
        decreases at,
    {
        proof {
            let shorter = whole.take(at - 1);
            assert(whole.take(at as int).drop_last() == shorter);
            assert(whole.take(at as int).last() == whole[at - 1]);
            assert(placed(shorter, entry).push(whole[at - 1]) + whole.skip(at as int) =~= placed(
                shorter,
                entry,
            ) + whole.skip(at - 1));
        }
        at -= 1;
    }
    proof {
        let kept = whole.take(at as int);
        if at > 0 {
            assert(kept.last() == whole[at - 1]);
        }
        assert(placed(kept, entry) == kept.push(entry));
        assert(whole.insert(at as int, entry) =~= kept.push(entry) + whole.skip(at as int));
    }
    sorted.insert(at, entry);
}

impl MetaRecord {
    /// Enters a world at the time of its last change, in place of its earlier entries.
    pub fn note_world(&mut self, record: &WorldRecord)
        ensures
            exists|entry: WorldSummary| #[trigger]
                is_entry_of(entry, *record) && final(self).worlds@ == newest_first(
                    without_key(old(self).worlds@, record.key@).push(entry),
                ),
    {
        self.forget_world(record.key.as_str());
        let entry = WorldSummary {
            key: copy_text(&record.key),
            display_name: copy_text(&record.display_name),
            updated_at_ms: record.updated_at_ms,
            used_bytes: 0,
        };
        assert(is_entry_of(entry, *record));
        self.worlds.push(entry);
        self.worlds = sort_newest_first(&self.worlds);
    }

    /// Takes a world off the list.
    pub fn forget_world(&mut self, key: &str)
        ensures
            final(self).worlds@ == without_key(old(self).worlds@, key@),
    {
        let mut kept: Vec<WorldSummary> = Vec::new();
        let mut i: usize = 0;
        proof {
            assert(self.worlds@.take(0) == Seq::<WorldSummary>::empty());
        }
        while i < self.worlds.len()
            invariant
                i <= self.worlds@.len(),
                kept@ == without_key(self.worlds@.take(i as int), key@),
                self.worlds@ == old(self).worlds@,
            decreases self.worlds@.len() - i,
        {
            proof {
                assert(self.worlds@.take(i + 1).drop_last() == self.worlds@.take(i as int));
                assert(self.worlds@.take(i + 1).last() == self.worlds@[i as int]);
            }
            if !same_text(self.worlds[i].key.as_str(), key) {
                kept.push(copy_entry(&self.worlds[i]));
            }
            i += 1;
        }
        proof {
            assert(self.worlds@.take(self.worlds@.len() as int) == self.worlds@);
        }
        self.worlds = kept;
    }
}

proof fn lemma_world_key_unique(key: Seq<char>, ts: u64, seed: u64, ts2: u64, seed2: u64)
    requires
        storage::is_world_key(key, ts, seed),
        storage::is_world_key(key, ts2, seed2),
    ensures
        ts == ts2,
        seed == seed2,
{
    let i = choose|i: int|
        #[trigger] crate::storage::first_pair_at(key, i) && crate::text::number_of(key.take(i))
            == Some(ts as nat) && crate::text::number_of(key.skip(i + 2)) == Some(seed as nat);
    let j = choose|j: int|
        #[trigger] crate::storage::first_pair_at(key, j) && crate::text::number_of(key.take(j))
            == Some(ts2 as nat) && crate::text::number_of(key.skip(j + 2)) == Some(seed2 as nat);
    if i < j {
        assert(!crate::storage::pair_at(key, i));
    } else if j < i {
        assert(!crate::storage::pair_at(key, j));
    }
}

impl WorldRecord {
    /// The record of a world that has none yet.
    pub fn fresh(key: &str, now: u64) -> (r: WorldRecord)
        ensures
            is_fresh_record(r, key@, now),
    {
        let parsed = parse_world_key(key);
        let (seed, created): (u64, u64) = match parsed {
            Some((ts, seed)) => (seed, ts.wrapping_mul(1000)),
            None => (0, now),
        };
        proof {
            if let Some((ts, seed)) = parsed {
                assert forall|ts2: u64, seed2: u64| #[trigger]
                    storage::is_world_key(key@, ts2, seed2) implies ts2 == ts && seed2 == seed by {
                    lemma_world_key_unique(key@, ts, seed, ts2, seed2);
                }
            }
        }
        WorldRecord {
            key: key.to_owned(),
            room_id: "local".to_owned(),
            seed: decimal_text(seed),
            display_name: "Unknown".to_owned(),
            created_at_ms: created,
            updated_at_ms: now,
            storage_version: STORAGE_VERSION,
            protocol_version: PROTOCOL_VERSION,
            active_free_objects: Vec::new(),
        }
    }

    /// The record of a world that is opened at time `now`, from the one found on disk.
    ///
    /// A record of another storage version cannot be opened.
    pub fn opened(found: Option<WorldRecord>, key: &str, now: u64) -> (r: Result<
        WorldRecord,
        StorageError,
    >)
        ensures
            match found {
                Some(record) => if record.storage_version == STORAGE_VERSION {
                    r is Ok && is_touched_record(r->Ok_0, record, now)
                } else {
                    r is Err && r->Err_0 == (StorageError::NeedsUpgrade {
                        found: record.storage_version,
                        supported: STORAGE_VERSION,
                    })
                },
                None => r is Ok && is_fresh_record(r->Ok_0, key@, now),
            },
    {
        match found {
            Some(record) => {
                if record.storage_version != STORAGE_VERSION {
                    return Err(
                        StorageError::NeedsUpgrade {
                            found: record.storage_version,
                            supported: STORAGE_VERSION,
                        },
                    );
                }
                Ok(WorldRecord::touched(record, now))
            },
            None => Ok(WorldRecord::fresh(key, now)),
        }
    }

    /// The record of a world that changed at time `now`, from the one found on disk.
    pub fn changed(found: Option<WorldRecord>, key: &str, now: u64) -> (r: WorldRecord)
        ensures
            is_changed_record(r, found, key@, now),
    {
        match found {
            Some(record) => WorldRecord::touched(record, now),
            None => WorldRecord::fresh(key, now),
        }
    }

    /// The record of a world whose free objects are saved at time `now`, from the one found on
    /// disk.
    pub fn with_objects(
        found: Option<WorldRecord>,
        key: &str,
        now: u64,
        objects: Vec<ObjectInFlight>,
    ) -> (r: WorldRecord)
        ensures
            r.active_free_objects == objects,
            exists|base: WorldRecord|
                #[trigger] is_changed_record(base, found, key@, now) && r == (WorldRecord {
                    active_free_objects: objects,
                    ..base
                }),
    {
        let mut record = WorldRecord::changed(found, key, now);
        proof {
            assert(is_changed_record(record, found, key@, now));
        }
        record.active_free_objects = objects;
        record
    }

    fn touched(record: WorldRecord, now: u64) -> (r: WorldRecord)
        ensures
            is_touched_record(r, record, now),
    {
        WorldRecord {
            key: record.key,
            room_id: record.room_id,
            seed: record.seed,
            display_name: record.display_name,
            created_at_ms: record.created_at_ms,
            updated_at_ms: now,
            storage_version: record.storage_version,
            protocol_version: record.protocol_version,
            active_free_objects: record.active_free_objects,
        }
    }
}

/// Sum of a list of sizes.
pub open spec fn sum(sizes: Seq<u64>) -> nat
    decreases sizes.len(),
{
    if sizes.len() == 0 {
        0
    } else {
        sum(sizes.drop_last()) + sizes.last() as nat
    }
}

proof fn lemma_sum_grows(sizes: Seq<u64>, i: int)
    requires
        0 <= i <= sizes.len(),
    ensures
        sum(sizes.take(i)) <= sum(sizes),
    decreases sizes.len() - i,
{
    if i < sizes.len() {
        lemma_sum_grows(sizes, i + 1);
        assert(sizes.take(i + 1).drop_last() == sizes.take(i));
    } else {
        assert(sizes.take(i) == sizes);
    }
}

fn total(sizes: &Vec<u64>) -> (r: u64)
    requires
        sum(sizes@) <= u64::MAX,
    ensures
        r == sum(sizes@),
{
    let mut r: u64 = 0;
    let mut i: usize = 0;
    while i < sizes.len()
        invariant
            i <= sizes@.len(),
            sum(sizes@) <= u64::MAX,
            r == sum(sizes@.take(i as int)),
        decreases sizes@.len() - i,
    {
        proof {
            lemma_sum_grows(sizes@, i + 1);
            assert(sizes@.take(i + 1).drop_last() == sizes@.take(i as int));
        }
        r += sizes[i];
        i += 1;
    }
    proof {
        assert(sizes@.take(sizes@.len() as int) == sizes@);
    }
    r
}

/// A sum that stops at the largest number of 64 bits.
pub open spec fn capped_sum(a: nat, b: nat) -> nat {
    if a + b > u64::MAX {
        u64::MAX as nat
    } else {
        a + b
    }
}

/// A difference that stops at zero.
pub open spec fn capped_difference(a: nat, b: nat) -> nat {
    if a < b {
        0
    } else {
        (a - b) as nat
    }
}

/// Bytes of the open world, its record and its chunks together, and bytes of all other worlds.
pub fn size_snapshot(chunk_sizes: &Vec<u64>, record_bytes: u64, world_sizes: &Vec<u64>) -> (r: (
    u64,
    u64,
))
    requires
        sum(chunk_sizes@) <= u64::MAX,
        sum(world_sizes@) <= u64::MAX,
    ensures
        r.0 == capped_sum(record_bytes as nat, sum(chunk_sizes@)),
        r.1 == capped_difference(sum(world_sizes@), r.0 as nat),
{
    let current: u64 = record_bytes.saturating_add(total(chunk_sizes));
    let others: u64 = total(world_sizes).saturating_sub(current);
    (current, others)
}

/// The storage error behind the name of a browser error.
pub fn error_of_name(name: &str, detail: String) -> (r: StorageError)
    ensures
        r == (if name@ == "NotFoundError"@ {
            StorageError::NotFound
        } else if name@ == "QuotaExceededError"@ {
            StorageError::QuotaExceeded
        } else {
            StorageError::Io(detail)
        }),
{
    if same_text(name, "NotFoundError") {
        StorageError::NotFound
    } else if same_text(name, "QuotaExceededError") {
        StorageError::QuotaExceeded
    } else {
        StorageError::Io(detail)
    }
}

/// A number written with two digits at least.
pub open spec fn two_digits(n: nat) -> Seq<char> {
    if n < 10 {
        seq!['0', text::digit_char(n)]
    } else {
        text::decimal(n)
    }
}

fn push_two_digits(out: &mut String, n: u32)
    ensures
        final(out)@ == old(out)@ + two_digits(n as nat),
{
    let ghost before = out@;
    if n < 10 {
        out.push('0');
    }
    push_decimal(out, n as u64);
    proof {
        if n < 10 {
            assert(before.push('0') + text::decimal(n as nat) =~= before + two_digits(n as nat));
        }
    }
}

/// A point of time as the lobby shows it.
pub open spec fn time_text(year: nat, month: nat, day: nat, h: nat, m: nat, s: nat) -> Seq<char> {
    text::decimal(year) + seq!['-'] + two_digits(month) + seq!['-'] + two_digits(day) + seq![' ']
        + two_digits(h) + seq![':'] + two_digits(m) + seq![':'] + two_digits(s)
}

/// Writes a point of time as the lobby shows it. The month counts from one.
pub fn format_time(year: u32, month: u32, day: u32, h: u32, m: u32, s: u32) -> (r: String)
    ensures
        r@ == time_text(year as nat, month as nat, day as nat, h as nat, m as nat, s as nat),
{
    let mut out = decimal_text(year as u64);
    out.push('-');
    push_two_digits(&mut out, month);
    out.push('-');
    push_two_digits(&mut out, day);
    out.push(' ');
    push_two_digits(&mut out, h);
    out.push(':');
    push_two_digits(&mut out, m);
    out.push(':');
    push_two_digits(&mut out, s);
    proof {
        let a = text::decimal(year as nat);
        assert(a.push('-') =~= a + seq!['-']);
        let b = a + seq!['-'] + two_digits(month as nat);
        assert(b.push('-') =~= b + seq!['-']);
        let c = b + seq!['-'] + two_digits(day as nat);
        assert(c.push(' ') =~= c + seq![' ']);
        let d = c + seq![' '] + two_digits(h as nat);
        assert(d.push(':') =~= d + seq![':']);
        let e = d + seq![':'] + two_digits(m as nat);
        assert(e.push(':') =~= e + seq![':']);
    }
    out
}

/// A world that is newer than all others comes first, and one that is older than all of them last.
pub proof fn law_the_newest_world_comes_first(sorted: Seq<WorldSummary>, entry: WorldSummary)
    requires
        is_newest_first(sorted),
    ensures
        (forall|i: int|
            0 <= i < sorted.len() ==> (#[trigger] sorted[i]).updated_at_ms < entry.updated_at_ms)
            ==> placed(sorted, entry) == seq![entry] + sorted,
        (forall|i: int|
            0 <= i < sorted.len() ==> (#[trigger] sorted[i]).updated_at_ms >= entry.updated_at_ms)
            ==> placed(sorted, entry) == sorted.push(entry),
    decreases sorted.len(),
{
    if sorted.len() > 0 {
        let front = sorted.drop_last();
        law_the_newest_world_comes_first(front, entry);
        if forall|i: int|
            0 <= i < sorted.len() ==> (#[trigger] sorted[i]).updated_at_ms < entry.updated_at_ms {
            assert(sorted[sorted.len() - 1].updated_at_ms < entry.updated_at_ms);
            assert forall|i: int| 0 <= i < front.len() implies (#[trigger] front[i]).updated_at_ms
                < entry.updated_at_ms by {
                assert(front[i] == sorted[i]);
            }
            assert((seq![entry] + front).push(sorted.last()) =~= seq![entry] + sorted);
        }
        if forall|i: int|
            0 <= i < sorted.len() ==> (#[trigger] sorted[i]).updated_at_ms >= entry.updated_at_ms {
            assert(sorted[sorted.len() - 1].updated_at_ms >= entry.updated_at_ms);
        }
    } else {
        assert(placed(sorted, entry) =~= seq![entry] + sorted);
    }
}

/// Worlds that were last played at one time keep their order.
pub proof fn law_worlds_of_one_time_keep_their_order(worlds: Seq<WorldSummary>, time: u64)
    ensures
        newest_first(worlds).filter(|w: WorldSummary| w.updated_at_ms == time) == worlds.filter(
            |w: WorldSummary| w.updated_at_ms == time,
        ),
    decreases worlds.len(),
{
    reveal(Seq::filter);
    if worlds.len() > 0 {
        let front = worlds.drop_last();
        law_worlds_of_one_time_keep_their_order(front, time);
        lemma_placing_keeps_the_order(newest_first(front), worlds.last(), time);
        assert(newest_first(front).push(worlds.last()).drop_last() =~= newest_first(front));
    }
}

/// A world is placed behind those that were last played at its own time.
proof fn lemma_placing_keeps_the_order(sorted: Seq<WorldSummary>, entry: WorldSummary, time: u64)
    ensures
        placed(sorted, entry).filter(|w: WorldSummary| w.updated_at_ms == time) == sorted.push(
            entry,
        ).filter(|w: WorldSummary| w.updated_at_ms == time),
    decreases sorted.len(),
{
    reveal_with_fuel(Seq::filter, 3);
    if sorted.len() > 0 && sorted.last().updated_at_ms < entry.updated_at_ms {
        let front = sorted.drop_last();
        lemma_placing_keeps_the_order(front, entry, time);
        assert(placed(front, entry).push(sorted.last()).drop_last() =~= placed(front, entry));
        assert(front.push(entry).drop_last() =~= front);
        assert(sorted.push(entry).drop_last() =~= sorted);
    }
}

/// Forgetting a world leaves the others in their order.
pub proof fn law_the_other_worlds_stay(
    worlds: Seq<WorldSummary>,
    entry: WorldSummary,
    key: Seq<char>,
)
    ensures
        entry.key@ == key ==> without_key(worlds.push(entry), key) == without_key(worlds, key),
        entry.key@ != key ==> without_key(worlds.push(entry), key) == without_key(
            worlds,
            key,
        ).push(entry),
        without_key(without_key(worlds, key), key) == without_key(worlds, key),
    decreases worlds.len(),
{
    assert(worlds.push(entry).drop_last() =~= worlds);
    if worlds.len() > 0 {
        let front = worlds.drop_last();
        law_the_other_worlds_stay(front, entry, key);
        if worlds.last().key@ != key {
            assert(without_key(worlds, key).drop_last() =~= without_key(front, key));
        }
    }
}

/// The size of a list of files is the sum of all of them, in whatever order they stand.
pub proof fn law_sizes_add_up(a: Seq<u64>, b: Seq<u64>, size: u64)
    ensures
        sum(seq![size]) == size,
        sum(a + b) == sum(a) + sum(b),
        sum(a.push(size)) == sum(seq![size] + a),
    decreases b.len(),
{
    assert(seq![size].drop_last() =~= Seq::<u64>::empty());
    assert(sum(Seq::<u64>::empty()) == 0);
    assert(sum(seq![size]) == size);
    if b.len() > 0 {
        assert((a + b).drop_last() =~= a + b.drop_last());
        law_sizes_add_up(a, b.drop_last(), size);
    } else {
        assert(a + b =~= a);
        assert(a.push(size).drop_last() =~= a);
        lemma_sum_from_the_front(size, a);
    }
}

/// The first size may be added last.
proof fn lemma_sum_from_the_front(size: u64, a: Seq<u64>)
    ensures
        sum(seq![size] + a) == size + sum(a),
    decreases a.len(),
{
    if a.len() > 0 {
        assert((seq![size] + a).drop_last() =~= seq![size] + a.drop_last());
        lemma_sum_from_the_front(size, a.drop_last());
    } else {
        assert((seq![size] + a).drop_last() =~= Seq::<u64>::empty());
        assert(sum(Seq::<u64>::empty()) == 0);
    }
}

/// Sums and differences of sizes are exact where they can be held, and stop at the ends.
pub proof fn law_sizes_stop_at_the_ends(a: nat, b: nat)
    requires
        a <= u64::MAX,
        b <= u64::MAX,
    ensures
        capped_sum(a, b) <= u64::MAX,
        capped_sum(a, b) == capped_sum(b, a),
        a + b <= u64::MAX ==> capped_sum(a, b) == a + b && capped_difference(capped_sum(a, b), b)
            == a,
        a + b > u64::MAX ==> capped_sum(a, b) == u64::MAX,
        b <= a ==> capped_difference(a, b) + b == a,
        a <= b ==> capped_difference(a, b) == 0,
{
}

/// Parts of a time are written with two digits that read back as the part.
pub proof fn law_parts_of_a_time_have_two_digits(n: nat)
    requires
        n < 100,
    ensures
        two_digits(n).len() == 2,
        text::all_digits(two_digits(n)),
        text::digits_value(two_digits(n)) == n,
{
    reveal_with_fuel(text::digits_value, 3);
    reveal_with_fuel(text::decimal, 3);
    let t = two_digits(n);
    if n < 10 {
        assert(t =~= seq!['0', text::digit_char(n)]);
    } else {
        assert(t =~= seq![text::digit_char(n / 10), text::digit_char(n % 10)]);
    }
    assert(t.drop_last().drop_last() =~= Seq::<char>::empty());
    assert(t.drop_last().last() == t[0] && t.last() == t[1]);
}

/// A time is written from the year to the second, and every part reads back from its place.
pub proof fn law_times_read_back(year: nat, month: nat, day: nat, h: nat, m: nat, s: nat)
    requires
        month < 100,
        day < 100,
        h < 100,
        m < 100,
        s < 100,
    ensures
        ({
            let t = time_text(year, month, day, h, m, s);
            let y = text::decimal(year).len() as int;
            &&& t.len() == y + 15
            &&& text::digits_of(t.subrange(0, y)) == Some(year)
            &&& t[y] == '-' && t[y + 3] == '-' && t[y + 6] == ' '
            &&& t[y + 9] == ':' && t[y + 12] == ':'
            &&& text::digits_value(t.subrange(y + 1, y + 3)) == month
            &&& text::digits_value(t.subrange(y + 4, y + 6)) == day
            &&& text::digits_value(t.subrange(y + 7, y + 9)) == h
            &&& text::digits_value(t.subrange(y + 10, y + 12)) == m
            &&& text::digits_value(t.subrange(y + 13, y + 15)) == s
        }),
{
    let t = time_text(year, month, day, h, m, s);
    let y = text::decimal(year).len() as int;
    law_parts_of_a_time_have_two_digits(month);
    law_parts_of_a_time_have_two_digits(day);
    law_parts_of_a_time_have_two_digits(h);
    law_parts_of_a_time_have_two_digits(m);
    law_parts_of_a_time_have_two_digits(s);
    text::law_decimal_round_trip(year);
    assert(t.subrange(0, y) =~= text::decimal(year));
    assert(t.subrange(y + 1, y + 3) =~= two_digits(month));
    assert(t.subrange(y + 4, y + 6) =~= two_digits(day));
    assert(t.subrange(y + 7, y + 9) =~= two_digits(h));
    assert(t.subrange(y + 10, y + 12) =~= two_digits(m));
    assert(t.subrange(y + 13, y + 15) =~= two_digits(s));
}

/// However often a world is played, it stays the world that it was made as, and the last time
/// counts.
pub proof fn law_a_played_world_stays_itself(
    a: WorldRecord,
    b: WorldRecord,
    c: WorldRecord,
    key: Seq<char>,
    now: u64,
    later: u64,
)
    requires
        is_touched_record(b, a, now),
        is_touched_record(c, b, later),
    ensures
        is_touched_record(c, a, later),
        c.updated_at_ms == later,
        c.key@ == a.key@ && c.seed@ == a.seed@ && c.created_at_ms == a.created_at_ms,
        c.room_id@ == a.room_id@ && c.display_name@ == a.display_name@,
        c.active_free_objects@ == a.active_free_objects@,
        c.storage_version == a.storage_version && c.protocol_version == a.protocol_version,
{
}

/// A new world is of the current version, holds nothing in flight, was last played when it was
/// made, and has the seed and the age that its key names.
pub proof fn law_a_new_world_is_made_by_its_key(
    record: WorldRecord,
    key: Seq<char>,
    now: u64,
    ts: u64,
    seed: u64,
)
    requires
        is_fresh_record(record, key, now),
    ensures
        record.key@ == key,
        record.updated_at_ms == now,
        record.storage_version == STORAGE_VERSION,
        record.protocol_version == PROTOCOL_VERSION,
        record.active_free_objects@.len() == 0,
        storage::is_world_key(key, ts, seed) ==> text::digits_of(record.seed@) == Some(seed as nat),
        storage::is_world_key(key, ts, seed) && ts * 1000 <= u64::MAX ==> record.created_at_ms
            == ts * 1000,
        (forall|t: u64, n: u64| !#[trigger] storage::is_world_key(key, t, n))
            ==> record.created_at_ms == now && text::digits_of(record.seed@) == Some(0nat),
{
    text::law_decimal_round_trip(seed as nat);
    text::law_decimal_round_trip(0);
}

/// A world that has been noted is listed once, by its name and its last time, and the other worlds
/// are listed as before.
pub proof fn law_a_noted_world_is_listed_once(
    worlds: Seq<WorldSummary>,
    record: WorldRecord,
    entry: WorldSummary,
    i: int,
    j: int,
)
    requires
        is_entry_of(entry, record),
    ensures
        ({
            let after = newest_first(without_key(worlds, record.key@).push(entry));
            &&& after.contains(entry)
            &&& entry.key@ == record.key@ && entry.display_name@ == record.display_name@
            &&& entry.updated_at_ms == record.updated_at_ms && entry.used_bytes == 0
            &&& after.len() == without_key(worlds, record.key@).len() + 1
            &&& 0 <= i < worlds.len() && worlds[i].key@ != record.key@ ==> after.contains(worlds[i])
            &&& 0 <= j < after.len() && after[j].key@ == record.key@ ==> after[j] == entry
        }),
{
    let rest = without_key(worlds, record.key@);
    let all = rest.push(entry);
    let after = newest_first(all);
    law_newest_first_is_sorted(all);
    all.to_multiset_ensures();
    after.to_multiset_ensures();
    assert(all[rest.len() as int] == entry);
    assert(all.contains(entry));
    assert(all.to_multiset().contains(entry));
    assert(after.to_multiset().contains(entry));
    if 0 <= i < worlds.len() && worlds[i].key@ != record.key@ {
        law_forgotten_world_is_gone(worlds, record.key@, i);
        let k = choose|k: int| 0 <= k < rest.len() && rest[k] == worlds[i];
        assert(all[k] == worlds[i]);
        assert(all.contains(worlds[i]));
        assert(after.to_multiset().contains(worlds[i]));
    }
    if 0 <= j < after.len() && after[j].key@ == record.key@ {
        assert(after.contains(after[j]));
        assert(all.to_multiset().contains(after[j]));
        assert(all.contains(after[j]));
        let k = choose|k: int| 0 <= k < all.len() && all[k] == after[j];
        if k < rest.len() {
            law_forgotten_world_is_gone(worlds, record.key@, k);
            assert(rest[k] == all[k]);
        }
    }
}

} // verus!
