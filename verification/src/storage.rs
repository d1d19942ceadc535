//! Saved worlds: how they and their chunks are named, the record of a world, the list of worlds
//! shown in the lobby, and the sizes reported to the player.
use vstd::prelude::*;
use vstd::string::*;

use crate::chunk::{ChunkPos, DecodeError};
use crate::object::ObjectInFlight;
use crate::text::{chars_of, decimal_text, push_decimal, read_i32, read_number};
use crate::text;

verus! {

/// Why a storage operation failed.
#[derive(Debug, Clone, PartialEq, Eq)]
pub enum StorageError {
    NotSupported,
    NotFound,
    QuotaExceeded,
    NeedsUpgrade { found: u8, supported: u8 },
    Decode(DecodeError),
    Io(String),
}

/// Space granted by the browser, and how much of it is taken.
#[derive(Copy, Clone, Debug, PartialEq, Eq, Structural)]
pub struct QuotaInfo {
    pub quota: u64,
    pub usage: u64,
}

impl Default for QuotaInfo {
    fn default() -> (r: QuotaInfo)
        ensures
            r == (QuotaInfo { quota: 0, usage: 0 }),
    {
        QuotaInfo { quota: 0, usage: 0 }
    }
}

/// The record kept with a saved world.
#[derive(Clone, Debug)]
pub struct WorldRecord {
    pub key: String,
    pub room_id: String,
    pub seed: String,
    pub display_name: String,
    pub created_at_ms: u64,
    pub updated_at_ms: u64,
    pub storage_version: u8,
    pub protocol_version: u32,
    /// The free objects that were in flight when the world was saved.
    pub active_free_objects: Vec<ObjectInFlight>,
}

/// The list of saved worlds.
#[derive(Clone, Debug)]
pub struct MetaRecord {
    pub worlds: Vec<WorldSummary>,
}

impl Default for MetaRecord {
    fn default() -> (r: MetaRecord)
        ensures
            r.worlds@ == Seq::<WorldSummary>::empty(),
    {
        MetaRecord { worlds: Vec::new() }
    }
}

/// One entry of the list of saved worlds.
#[derive(Clone, Debug)]
pub struct WorldSummary {
    pub key: String,
    pub display_name: String,
    pub updated_at_ms: u64,
    pub used_bytes: u64,
}

/// What the lobby shows of the storage.
#[derive(Clone, Debug)]
pub struct StorageOverview {
    pub worlds: Vec<WorldSummary>,
    pub quota: Option<QuotaInfo>,
}

impl Default for StorageOverview {
    fn default() -> (r: StorageOverview)
        ensures
            r.worlds@ == Seq::<WorldSummary>::empty(),
            r.quota is None,
    {
        StorageOverview { worlds: Vec::new(), quota: None }
    }
}

/// The directory name of a world: when it was created, in seconds, and its seed.
pub open spec fn world_key(created_at_s: nat, seed: nat) -> Seq<char> {
    text::decimal(created_at_s) + seq!['_', '_'] + text::decimal(seed)
}

/// Whether two underscores stand at place `i`.
pub open spec fn pair_at(s: Seq<char>, i: int) -> bool {
    0 <= i && i + 1 < s.len() && s[i] == '_' && s[i + 1] == '_'
}

/// Whether the first two adjacent underscores stand at place `i`.
pub open spec fn first_pair_at(s: Seq<char>, i: int) -> bool {
    pair_at(s, i) && forall|j: int| 0 <= j < i ==> !#[trigger] pair_at(s, j)
}

/// Whether a text splits, at its first two adjacent underscores, into two numbers of 64 bits.
pub open spec fn is_world_key(s: Seq<char>, created_at_s: u64, seed: u64) -> bool {
    exists|i: int|
        #[trigger] first_pair_at(s, i) && text::number_of(s.take(i)) == Some(created_at_s as nat)
            && text::number_of(s.skip(i + 2)) == Some(seed as nat)
}

/// Whether a text is the directory name of a world with this seed.
pub open spec fn names_seed(s: Seq<char>, seed: u64) -> bool {
    exists|created_at_s: u64| #[trigger] is_world_key(s, created_at_s, seed)
}

/// The name of a coordinate in a file name: a minus sign is written `n`.
pub open spec fn coord_text(v: i32) -> Seq<char> {
    if v == i32::MIN {
        seq!['n'] + text::decimal(i32::MAX as nat)
    } else if v < 0 {
        seq!['n'] + text::decimal((-v) as nat)
    } else {
        text::decimal(v as nat)
    }
}

/// The file name of a chunk.
pub open spec fn chunk_file(pos: ChunkPos) -> Seq<char> {
    coord_text(pos.x) + seq!['_'] + coord_text(pos.z) + seq!['.', 'b', 'i', 'n']
}

/// The integer that a signed number of 32 bits becomes when its sign is flipped; the smallest
/// one stays.
pub open spec fn negated(v: int) -> int {
    if v == i32::MIN {
        v
    } else {
        -v
    }
}

/// The coordinate that a name denotes.
pub open spec fn coord_of(s: Seq<char>) -> Option<i32> {
    let flipped = s.len() > 0 && s[0] == 'n';
    match text::signed_number_of(if flipped { s.skip(1) } else { s }) {
        Some(v) => if i32::MIN <= v <= i32::MAX {
            Some(if flipped { negated(v) as i32 } else { v as i32 })
        } else {
            None
        },
        None => None,
    }
}

/// Whether the first underscore stands at place `i`.
pub open spec fn first_underscore_at(s: Seq<char>, i: int) -> bool {
    0 <= i < s.len() && s[i] == '_' && forall|j: int| 0 <= j < i ==> #[trigger] s[j] != '_'
}

pub open spec fn ends_in_bin(s: Seq<char>) -> bool {
    s.len() >= 4 && s.skip(s.len() - 4) == seq!['.', 'b', 'i', 'n']
}

/// Whether a file name denotes the chunk at `pos`.
pub open spec fn is_chunk_file(s: Seq<char>, pos: ChunkPos) -> bool {
    let stem = s.take(s.len() - 4);
    &&& ends_in_bin(s)
    &&& exists|i: int|
        #[trigger] first_underscore_at(stem, i) && coord_of(stem.take(i)) == Some(pos.x)
            && coord_of(stem.skip(i + 1)) == Some(pos.z)
}

/// The directory name of a world.
pub fn make_world_key(created_at_s: u64, seed: u64) -> (r: String)
    ensures
        r@ == world_key(created_at_s as nat, seed as nat),
{
    let mut out = decimal_text(created_at_s);
    out.push('_');
    out.push('_');
    push_decimal(&mut out, seed);
    proof {
        assert(text::decimal(created_at_s as nat).push('_').push('_') =~= text::decimal(created_at_s as nat)
            + seq!['_', '_']);
    }
    out
}

/// Takes the directory name of a world apart: creation time in seconds, then seed.
pub fn parse_world_key(key: &str) -> (r: Option<(u64, u64)>)
    ensures
        match r {
            Some((ts, seed)) => is_world_key(key@, ts, seed),
            None => forall|ts: u64, seed: u64| !is_world_key(key@, ts, seed),
        },
{
    let chars = chars_of(key);
    let n: usize = chars.len();
    if n < 2 {
        return None;
    }
    let last: usize = n - 1;
    let mut i: usize = 0;
    while i < last && !(chars[i] == '_' && chars[i + 1] == '_')
        invariant
            n == chars@.len(),
            last == n - 1,
            chars@ == key@,
            i <= last,
            forall|j: int| 0 <= j < i ==> !#[trigger] pair_at(key@, j),
        ensures
            i < last ==> pair_at(key@, i as int),
        decreases last - i,
    {
        i += 1;
    }
    if i == last {
        proof {
            assert forall|j: int| !#[trigger] pair_at(key@, j) by {
                if 0 <= j < i {
                    assert(!pair_at(key@, j));
                }
            }
        }
        return None;
    }
    let ts = read_number(&chars, 0, i, u64::MAX);
    let seed = read_number(&chars, i + 2, n, u64::MAX);
    proof {
        assert(first_pair_at(key@, i as int));
        assert(chars@.subrange(0, i as int) =~= key@.take(i as int));
        assert(chars@.subrange(i + 2, n as int) =~= key@.skip(i + 2));
        assert forall|j: int| #[trigger] first_pair_at(key@, j) implies j == i by {
            if j < i {
                assert(!pair_at(key@, j));
            } else if i < j {
                assert(!pair_at(key@, i as int));
            }
        }
    }
    match (ts, seed) {
        (Some(ts), Some(seed)) => Some((ts, seed)),
        _ => None,
    }
}

/// The seed in the directory name of a world.
pub fn seed_from_key(key: &str) -> (r: Option<u64>)
    ensures
        match r {
            Some(seed) => names_seed(key@, seed),
            None => forall|seed: u64| !names_seed(key@, seed),
        },
{
    match parse_world_key(key) {
        Some((ts, seed)) => {
            assert(names_seed(key@, seed)) by {
                assert(is_world_key(key@, ts, seed));
            }
            Some(seed)
        },
        None => None,
    }
}

/// A directory name is read back as what it was made from, and as nothing else.
pub proof fn law_world_key_round_trip(created_at_s: u64, seed: u64, ts: u64, other: u64)
    ensures
        is_world_key(world_key(created_at_s as nat, seed as nat), created_at_s, seed),
        is_world_key(world_key(created_at_s as nat, seed as nat), ts, other) ==> ts == created_at_s
            && other == seed,
{
    let head = text::decimal(created_at_s as nat);
    let tail = text::decimal(seed as nat);
    let s = world_key(created_at_s as nat, seed as nat);
    let at = head.len() as int;
    text::lemma_decimal_digits(created_at_s as nat);
    text::law_decimal_round_trip(created_at_s as nat);
    text::law_decimal_round_trip(seed as nat);
    assert(s.take(at) =~= head);
    assert(s.skip(at + 2) =~= tail);
    assert(pair_at(s, at));
    assert forall|j: int| 0 <= j < at implies !#[trigger] pair_at(s, j) by {
        assert(s[j] == head[j]);
        assert(text::is_digit(head[j]));
    }
    assert(first_pair_at(s, at));
    if is_world_key(s, ts, other) {
        let i = choose|i: int|
            #[trigger] first_pair_at(s, i) && text::number_of(s.take(i)) == Some(ts as nat) && text::number_of(
                s.skip(i + 2),
            ) == Some(other as nat);
        if i < at {
            assert(!pair_at(s, i));
        } else if at < i {
            assert(!pair_at(s, at));
        }
    }
}

/// The file name of a chunk.
pub fn chunk_filename(pos: ChunkPos) -> (r: String)
    ensures
        r@ == chunk_file(pos),
{
    let mut out = coord_part(pos.x);
    out.push('_');
    out.append(coord_part(pos.z).as_str());
    out.append(".bin");
    proof {
        reveal_strlit(".bin");
        assert(".bin"@ =~= seq!['.', 'b', 'i', 'n']);
        assert(coord_text(pos.x).push('_') =~= coord_text(pos.x) + seq!['_']);
    }
    out
}

fn coord_part(v: i32) -> (r: String)
    ensures
        r@ == coord_text(v),
{
    let mut out = String::new();
    if v < 0 {
        out.push('n');
        let size: u64 = if v == i32::MIN {
            i32::MAX as u64
        } else {
            (-v) as u64
        };
        push_decimal(&mut out, size);
        proof {
            assert(Seq::<char>::empty().push('n') =~= seq!['n']);
        }
    } else {
        push_decimal(&mut out, v as u64);
        proof {
            assert(Seq::<char>::empty() + text::decimal(v as nat) =~= text::decimal(v as nat));
        }
    }
    out
}

/// The chunk that a file name denotes.
pub fn parse_chunk_filename(name: &str) -> (r: Option<ChunkPos>)
    ensures
        match r {
            Some(pos) => is_chunk_file(name@, pos),
            None => forall|pos: ChunkPos| !is_chunk_file(name@, pos),
        },
{
    let chars = chars_of(name);
    let n: usize = chars.len();
    if n < 4 {
        return None;
    }
    let stem: usize = n - 4;
    proof {
        let tail = name@.skip(n - 4);
        let bin = seq!['.', 'b', 'i', 'n'];
        if chars@[n - 4] == '.' && chars@[n - 3] == 'b' && chars@[n - 2] == 'i' && chars@[n - 1]
            == 'n' {
            assert(tail =~= bin);
        } else if tail == bin {
            assert(tail[0] == bin[0] && tail[1] == bin[1] && tail[2] == bin[2] && tail[3]
                == bin[3]);
        }
    }
    if !(chars[stem] == '.' && chars[stem + 1] == 'b' && chars[stem + 2] == 'i' && chars[stem + 3]
        == 'n') {
        return None;
    }
    let ghost head = name@.take(n - 4);
    let mut i: usize = 0;
    while i < stem && chars[i] != '_'
        invariant
            n == chars@.len(),
            stem == n - 4,
            chars@ == name@,
            head == name@.take(n - 4),
            i <= stem,
            forall|j: int| 0 <= j < i ==> #[trigger] head[j] != '_',
        ensures
            i < stem ==> head[i as int] == '_',
        decreases stem - i,
    {
        assert(head[i as int] == chars@[i as int]);
        i += 1;
    }
    if i == stem {
        return None;
    }
    let x = parse_coord_part(&chars, 0, i);
    let z = parse_coord_part(&chars, i + 1, stem);
    proof {
        assert(first_underscore_at(head, i as int));
        assert(chars@.subrange(0, i as int) =~= head.take(i as int));
        assert(chars@.subrange(i + 1, stem as int) =~= head.skip(i + 1));
        assert forall|j: int| #[trigger] first_underscore_at(head, j) implies j == i by {
            if j < i {
                assert(head[j] != '_');
            } else if i < j {
                assert(head[i as int] != '_');
            }
        }
    }
    match (x, z) {
        (Some(x), Some(z)) => {
            let pos = ChunkPos { x, z };
            assert(is_chunk_file(name@, pos));
            Some(pos)
        },
        _ => None,
    }
}

fn parse_coord_part(chars: &Vec<char>, from: usize, to: usize) -> (r: Option<i32>)
    requires
        from <= to <= chars@.len(),
    ensures
        r == coord_of(chars@.subrange(from as int, to as int)),
{
    let ghost s = chars@.subrange(from as int, to as int);
    if from < to && chars[from] == 'n' {
        proof {
            assert(s[0] == 'n');
            assert(s.skip(1) =~= chars@.subrange(from + 1, to as int));
        }
        match read_i32(chars, from + 1, to) {
            Some(v) => if v == i32::MIN {
                Some(v)
            } else {
                Some(-v)
            },
            None => None,
        }
    } else {
        proof {
            if s.len() > 0 {
                assert(s[0] == chars@[from as int]);
            }
        }
        read_i32(chars, from, to)
    }
}

proof fn lemma_coord_round_trip(v: i32)
    requires
        v != i32::MIN,
    ensures
        coord_of(coord_text(v)) == Some(v),
        forall|j: int| 0 <= j < coord_text(v).len() ==> #[trigger] coord_text(v)[j] != '_',
{
    let size: nat = if v < 0 {
        (-v) as nat
    } else {
        v as nat
    };
    text::lemma_decimal_digits(size);
    text::law_decimal_round_trip(size);
    let d = text::decimal(size);
    if v < 0 {
        assert(coord_text(v).skip(1) =~= d);
        assert forall|j: int| 0 <= j < coord_text(v).len() implies #[trigger] coord_text(v)[j]
            != '_' by {
            if j > 0 {
                assert(coord_text(v)[j] == d[j - 1]);
                assert(text::is_digit(d[j - 1]));
            }
        }
    } else {
        assert(text::is_digit(d[0]));
        assert forall|j: int| 0 <= j < coord_text(v).len() implies #[trigger] coord_text(v)[j]
            != '_' by {
            assert(text::is_digit(d[j]));
        }
    }
}

/// A chunk's file name is read back as that chunk and as no other. The smallest coordinate has no
/// name of its own: it shares that of its neighbour.
pub proof fn law_chunk_file_round_trip(pos: ChunkPos, other: ChunkPos)
    requires
        pos.x != i32::MIN,
        pos.z != i32::MIN,
    ensures
        is_chunk_file(chunk_file(pos), pos),
        is_chunk_file(chunk_file(pos), other) ==> other == pos,
{
    let s = chunk_file(pos);
    let head = coord_text(pos.x);
    let tail = coord_text(pos.z);
    lemma_coord_round_trip(pos.x);
    lemma_coord_round_trip(pos.z);
    let stem = s.take(s.len() - 4);
    let at = head.len() as int;
    assert(s.skip(s.len() - 4) =~= seq!['.', 'b', 'i', 'n']);
    assert(stem =~= head + seq!['_'] + tail);
    assert(stem.take(at) =~= head);
    assert(stem.skip(at + 1) =~= tail);
    assert forall|j: int| 0 <= j < at implies #[trigger] stem[j] != '_' by {
        assert(stem[j] == head[j]);
    }
    assert(first_underscore_at(stem, at));
    if is_chunk_file(s, other) {
        let i = choose|i: int|
            #[trigger] first_underscore_at(stem, i) && coord_of(stem.take(i)) == Some(other.x)
                && coord_of(stem.skip(i + 1)) == Some(other.z);
        if i < at {
            assert(stem[i] != '_');
        } else if at < i {
            assert(stem[at] != '_');
        }
    }
}

/// Number of units that a size can be counted in.
pub const SIZE_UNITS: usize = 5;

/// How many bytes make one of a unit.
pub open spec fn unit_size(unit: int) -> nat {
    if unit == 0 {
        1
    } else if unit == 1 {
        1024
    } else if unit == 2 {
        1024 * 1024
    } else if unit == 3 {
        1024 * 1024 * 1024
    } else {
        1024 * 1024 * 1024 * 1024
    }
}

pub open spec fn unit_text(unit: int) -> Seq<char> {
    if unit == 0 {
        "B"@
    } else if unit == 1 {
        "KB"@
    } else if unit == 2 {
        "MB"@
    } else if unit == 3 {
        "GB"@
    } else {
        "TB"@
    }
}

/// The quotient rounded to the nearest integer, to the even one in the middle between two.
pub open spec fn round_half_even(a: nat, b: nat) -> nat {
    let q = a / b;
    let rest = a % b;
    if 2 * rest > b || (2 * rest == b && q % 2 == 1) {
        q + 1
    } else {
        q
    }
}

/// The unit in which a size stays below a hundred, or the largest one.
pub open spec fn is_fitting_unit(bytes: nat, unit: int) -> bool {
    &&& 0 <= unit < SIZE_UNITS
    &&& unit < SIZE_UNITS - 1 ==> bytes < 100 * unit_size(unit)
    &&& forall|u: int| 0 <= u < unit ==> bytes >= 100 * #[trigger] unit_size(u)
}

/// Gap between neighbouring numbers of 53 significant bits around `bytes`.
pub open spec fn double_step(bytes: u64) -> nat {
    if bytes < 0x20_0000_0000_0000 {
        1
    } else if bytes < 0x40_0000_0000_0000 {
        2
    } else if bytes < 0x80_0000_0000_0000 {
        4
    } else if bytes < 0x100_0000_0000_0000 {
        8
    } else if bytes < 0x200_0000_0000_0000 {
        16
    } else if bytes < 0x400_0000_0000_0000 {
        32
    } else if bytes < 0x800_0000_0000_0000 {
        64
    } else if bytes < 0x1000_0000_0000_0000 {
        128
    } else if bytes < 0x2000_0000_0000_0000 {
        256
    } else if bytes < 0x4000_0000_0000_0000 {
        512
    } else if bytes < 0x8000_0000_0000_0000 {
        1024
    } else {
        2048
    }
}

/// A size with 53 significant bits, as it is shown.
pub open spec fn shown_size(bytes: u64) -> nat {
    round_half_even(bytes as nat, double_step(bytes)) * double_step(bytes)
}

/// A size as it is shown: one decimal, then the unit.
pub open spec fn size_text(bytes: nat, unit: int) -> Seq<char> {
    let tenths = round_half_even(bytes * 10, unit_size(unit));
    text::decimal(tenths / 10) + seq!['.', text::digit_char(tenths % 10), ' '] + unit_text(unit)
}

/// Whether a text is a size in its fitting unit.
pub open spec fn shows_size(t: Seq<char>, bytes: u64) -> bool {
    exists|unit: int|
        #[trigger] is_fitting_unit(shown_size(bytes), unit) && t == size_text(
            shown_size(bytes),
            unit,
        )
}

fn double_step_of(bytes: u64) -> (r: u64)
    ensures
        r == double_step(bytes),
{
    if bytes < 0x20_0000_0000_0000 {
        1
    } else if bytes < 0x40_0000_0000_0000 {
        2
    } else if bytes < 0x80_0000_0000_0000 {
        4
    } else if bytes < 0x100_0000_0000_0000 {
        8
    } else if bytes < 0x200_0000_0000_0000 {
        16
    } else if bytes < 0x400_0000_0000_0000 {
        32
    } else if bytes < 0x800_0000_0000_0000 {
        64
    } else if bytes < 0x1000_0000_0000_0000 {
        128
    } else if bytes < 0x2000_0000_0000_0000 {
        256
    } else if bytes < 0x4000_0000_0000_0000 {
        512
    } else if bytes < 0x8000_0000_0000_0000 {
        1024
    } else {
        2048
    }
}

fn rounded_quotient(a: u128, b: u128) -> (r: u128)
    requires
        0 < b <= 0x1_0000_0000_0000,
        a <= 0xff_ffff_ffff_ffff_ffff,
    ensures
        r == round_half_even(a as nat, b as nat),
        r * b <= a + b,
{
    let q: u128 = a / b;
    let rest: u128 = a % b;
    proof {
        assert(q * b + rest == a && q <= a && (q + 1) * b <= a + b) by (nonlinear_arith)
            requires
                q == a / b,
                rest == a % b,
                b > 0,
        ;
    }
    if 2 * rest > b || (2 * rest == b && q % 2 == 1) {
        q + 1
    } else {
        q
    }
}

fn unit_label(unit: usize) -> (r: &'static str)
    ensures
        r@ == unit_text(unit as int),
{
    if unit == 0 {
        "B"
    } else if unit == 1 {
        "KB"
    } else if unit == 2 {
        "MB"
    } else if unit == 3 {
        "GB"
    } else {
        "TB"
    }
}

fn bytes_per_unit(unit: usize) -> (r: u128)
    ensures
        r == unit_size(unit as int),
{
    if unit == 0 {
        1
    } else if unit == 1 {
        1024
    } else if unit == 2 {
        1024 * 1024
    } else if unit == 3 {
        1024 * 1024 * 1024
    } else {
        1024 * 1024 * 1024 * 1024
    }
}

/// A size in the unit in which it stays below a hundred, with one decimal.
pub fn format_storage_bytes(bytes: u64) -> (r: String)
    ensures
        shows_size(r@, bytes),
{
    let step: u64 = double_step_of(bytes);
    let steps: u128 = rounded_quotient(bytes as u128, step as u128);
    let value: u128 = steps * step as u128;
    let mut unit: usize = 0;
    while unit + 1 < SIZE_UNITS && value >= 100 * bytes_per_unit(unit)
        invariant
            unit < SIZE_UNITS,
            forall|u: int| 0 <= u < unit ==> value >= 100 * #[trigger] unit_size(u),
        ensures
            unit + 1 < SIZE_UNITS ==> value < 100 * unit_size(unit as int),
        decreases SIZE_UNITS - unit,
    {
        unit += 1;
    }
    let size: u128 = bytes_per_unit(unit);
    let tenths: u128 = rounded_quotient(value * 10, size);
    proof {
        assert(value == shown_size(bytes));
        assert(tenths <= 0x1_0000_0000) by (nonlinear_arith)
            requires
                tenths * size <= value * 10 + size,
                value < 100 * size || size == 1024 * 1024 * 1024 * 1024,
                value <= 0x1_0000_0000_0000_0000 + 2048,
                size > 0,
        ;
    }
    let mut out = String::new();
    push_decimal(&mut out, (tenths / 10) as u64);
    out.push('.');
    out.push((48 + (tenths % 10) as u8) as char);
    out.push(' ');
    out.append(unit_label(unit));
    proof {
        let whole = text::decimal((tenths / 10) as nat);
        assert(Seq::<char>::empty() + whole =~= whole);
        assert(whole.push('.').push(text::digit_char((tenths % 10) as nat)).push(' ') =~= whole
            + seq!['.', text::digit_char((tenths % 10) as nat), ' ']);
        assert(is_fitting_unit(shown_size(bytes), unit as int));
    }
    out
}

/// A chunk's file is named after its two coordinates with an underline between them, and ends in
/// `.bin`; a negative coordinate is written with an `n` in front of its size.
pub proof fn law_chunk_files_are_named_by_coordinates(pos: ChunkPos, v: i32)
    ensures
        chunk_file(pos) == coord_text(pos.x) + "_"@ + coord_text(pos.z) + ".bin"@,
        v >= 0 ==> coord_text(v) == text::decimal(v as nat),
        i32::MIN < v < 0 ==> coord_text(v).len() > 1 && coord_text(v)[0] == 'n' && coord_text(
            v,
        ).skip(1) == coord_text((-v) as i32),
{
    reveal_strlit("_");
    reveal_strlit(".bin");
    assert("_"@ =~= seq!['_']);
    assert(".bin"@ =~= seq!['.', 'b', 'i', 'n']);
    if i32::MIN < v < 0 {
        assert(coord_text(v).skip(1) =~= text::decimal((-v) as nat));
        text::law_decimal_round_trip((-v) as nat);
    }
}

/// Two chunks never share a file, as long as neither lies at the lowest coordinate there is.
pub proof fn law_chunks_have_files_of_their_own(a: ChunkPos, b: ChunkPos)
    requires
        a.x != i32::MIN && a.z != i32::MIN,
        b.x != i32::MIN && b.z != i32::MIN,
    ensures
        chunk_file(a) == chunk_file(b) ==> a == b,
{
    law_chunk_file_round_trip(a, b);
    law_chunk_file_round_trip(b, a);
}

/// A world's key is when it was made and its seed, with two underlines between them.
pub proof fn law_world_keys_name_time_and_seed(created_at_s: u64, seed: u64)
    ensures
        world_key(created_at_s as nat, seed as nat) == text::decimal(created_at_s as nat) + "__"@
            + text::decimal(seed as nat),
        names_seed(world_key(created_at_s as nat, seed as nat), seed),
{
    reveal_strlit("__");
    assert("__"@ =~= seq!['_', '_']);
    law_world_key_round_trip(created_at_s, seed, created_at_s, seed);
}

/// Each unit is 1024 times the one before it, from bytes on.
pub proof fn law_units_are_multiples_of_1024(unit: int)
    ensures
        unit_size(0) == 1,
        0 <= unit < 4 ==> unit_size(unit + 1) == 1024 * unit_size(unit),
{
}

/// Rounding gives the nearest whole number, and of two equally near the even one.
pub proof fn law_rounding_gives_the_nearest(a: nat, b: nat)
    requires
        b > 0,
    ensures
        ({
            let r = round_half_even(a, b);
            &&& -(b as int) <= 2 * (r * b - a) <= b
            &&& 2 * (r * b - a) == b || 2 * (r * b - a) == -(b as int) ==> r % 2 == 0
        }),
{
    let q = a / b;
    let rest = a % b;
    assert(a == q * b + rest && 0 <= rest < b) by (nonlinear_arith)
        requires
            b > 0,
            q == a / b,
            rest == a % b,
    ;
    assert((q + 1) * b == q * b + b) by (nonlinear_arith);
}

/// A size is shown in the smallest unit in which it is less than a hundred, or in the largest; only
/// one unit fits.
pub proof fn law_one_unit_fits(bytes: nat, a: int, b: int)
    requires
        is_fitting_unit(bytes, a),
        is_fitting_unit(bytes, b),
    ensures
        a == b,
        a < 4 ==> bytes < 100 * unit_size(a),
        a > 0 ==> bytes >= 100 * unit_size(a - 1),
{
    if a < b {
        assert(bytes >= 100 * unit_size(a));
    }
    if b < a {
        assert(bytes >= 100 * unit_size(b));
    }
    if a > 0 {
        assert(bytes >= 100 * unit_size(a - 1));
    }
}

/// A size is shown as exactly as it can be kept in 53 binary digits: small ones are exact, and no
/// size is off by more than half of a step, which is a tiny part of it.
pub proof fn law_sizes_are_shown_nearly_exactly(bytes: u64)
    ensures
        bytes < 0x20_0000_0000_0000 ==> shown_size(bytes) == bytes,
        -(double_step(bytes) as int) <= 2 * (shown_size(bytes) - bytes) <= double_step(bytes),
        double_step(bytes) == 1 || double_step(bytes) * 0x10_0000_0000_0000 <= bytes,
        bytes < double_step(bytes) * 0x20_0000_0000_0000,
{
    law_rounding_gives_the_nearest(bytes as nat, double_step(bytes));
}

/// A size is written as a number with one digit behind the point and its unit behind that, and the
/// number is the size in tenths of the unit, rounded.
pub proof fn law_written_sizes_read_back(bytes: nat, unit: int)
    requires
        0 <= unit < SIZE_UNITS,
    ensures
        ({
            let t = size_text(bytes, unit);
            let tenths = round_half_even(10 * bytes, unit_size(unit));
            let d = text::decimal(tenths / 10).len() as int;
            &&& d + 3 < t.len()
            &&& text::digits_of(t.subrange(0, d)) == Some(tenths / 10)
            &&& t[d] == '.' && text::is_digit(t[d + 1]) && t[d + 2] == ' '
            &&& 10 * text::digits_value(t.subrange(0, d)) + text::digit_value(t[d + 1]) == tenths
            &&& t.last() == 'B'
            &&& unit == 0 ==> t.len() == d + 4
            &&& unit == 1 ==> t.len() == d + 5 && t[d + 3] == 'K'
            &&& unit == 2 ==> t.len() == d + 5 && t[d + 3] == 'M'
            &&& unit == 3 ==> t.len() == d + 5 && t[d + 3] == 'G'
            &&& unit == 4 ==> t.len() == d + 5 && t[d + 3] == 'T'
        }),
{
    reveal_strlit("B");
    reveal_strlit("KB");
    reveal_strlit("MB");
    reveal_strlit("GB");
    reveal_strlit("TB");
    let t = size_text(bytes, unit);
    let tenths = round_half_even(10 * bytes, unit_size(unit));
    let d = text::decimal(tenths / 10).len() as int;
    text::law_decimal_round_trip(tenths / 10);
    text::lemma_decimal_digits(tenths / 10);
    assert(t.subrange(0, d) =~= text::decimal(tenths / 10));
    assert(t[d + 1] == text::digit_char(tenths % 10));
}

/// One text shows a size: that in the unit that fits it.
pub proof fn law_a_size_is_shown_in_one_way(bytes: u64, t: Seq<char>, u: Seq<char>, unit: int)
    requires
        shows_size(t, bytes),
        shows_size(u, bytes),
        is_fitting_unit(shown_size(bytes), unit),
    ensures
        t == u,
        t == size_text(shown_size(bytes), unit),
{
    let a = choose|a: int| #[trigger]
        is_fitting_unit(shown_size(bytes), a) && t == size_text(shown_size(bytes), a);
    let b = choose|b: int| #[trigger]
        is_fitting_unit(shown_size(bytes), b) && u == size_text(shown_size(bytes), b);
    law_one_unit_fits(shown_size(bytes), a, unit);
    law_one_unit_fits(shown_size(bytes), b, unit);
}

} // verus!
