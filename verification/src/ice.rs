//! Connection candidates: which way two players try first.
use vstd::prelude::*;
use vstd::string::*;

use crate::json;
use crate::signaling::IceServerConfig;
use crate::text;
use crate::text::{chars_of, joined, push_decimal, read_digits, read_number, split_ranges, text_between};

verus! {

/// How much the priority of a candidate with an IPv4 address is lowered.
pub const IPV4_PRIORITY_PENALTY: u32 = 0x4000_0000;

/// A number of an IPv4 address.
pub open spec fn is_octet(s: Seq<char>) -> bool {
    exists|n: nat| n <= 255 && s == #[trigger] text::decimal(n)
}

/// An IPv4 address: four numbers with dots between them.
pub open spec fn is_ipv4(s: Seq<char>) -> bool {
    let parts = text::split(s, '.');
    parts.len() == 4 && is_octet(parts[0]) && is_octet(parts[1]) && is_octet(parts[2]) && is_octet(
        parts[3],
    )
}

/// The priority of a candidate with an IPv4 address.
pub open spec fn lowered(priority: nat) -> nat {
    if priority < IPV4_PRIORITY_PENALTY {
        0
    } else {
        (priority - IPV4_PRIORITY_PENALTY) as nat
    }
}

/// Whether a candidate line has a priority and an IPv4 address where a candidate has them.
pub open spec fn is_lowered_candidate(fields: Seq<Seq<char>>) -> bool {
    &&& fields.len() >= 6
    &&& is_ipv4(fields[4])
    &&& text::number_of(fields[3]) matches Some(p) && p <= u32::MAX
}

/// A candidate line after the preference for IPv6: only the priority of IPv4 candidates changes.
pub open spec fn preferred(candidate: Seq<char>) -> Seq<char> {
    let fields = text::split(candidate, ' ');
    if is_lowered_candidate(fields) {
        text::join(
            fields.update(3, text::decimal(lowered(text::number_of(fields[3]).unwrap()))),
            ' ',
        )
    } else {
        candidate
    }
}

fn octet_in(chars: &Vec<char>, from: usize, to: usize) -> (r: bool)
    requires
        from <= to <= chars@.len(),
    ensures
        r == is_octet(chars@.subrange(from as int, to as int)),
{
    let ghost s = chars@.subrange(from as int, to as int);
    let value = read_digits(chars, from, to, 255);
    proof {
        if s.len() > 0 {
            assert(s[0] == chars@[from as int]);
        }
        assert forall|n: nat| n <= 255 && s == #[trigger] text::decimal(n) implies text::digits_of(s)
            == Some(n) && (s.len() == 1 || s[0] != '0') by {
            text::law_decimal_round_trip(n);
            lemma_decimal_has_no_leading_zero(n);
        }
    }
    match value {
        Some(v) => {
            let plain = to - from == 1 || chars[from] != '0';
            proof {
                if plain {
                    text::law_plain_digits_are_decimal(s);
                    assert(s == text::decimal(v as nat));
                }
            }
            plain
        },
        None => false,
    }
}

proof fn lemma_decimal_has_no_leading_zero(n: nat)
    ensures
        text::decimal(n).len() > 0,
        text::decimal(n).len() == 1 || text::decimal(n)[0] != '0',
        n > 0 ==> text::decimal(n)[0] != '0',
    decreases n,
{
    if n >= 10 {
        lemma_decimal_has_no_leading_zero(n / 10);
        assert(text::decimal(n)[0] == text::decimal(n / 10)[0]);
    }
}

fn ipv4_in(chars: &Vec<char>, from: usize, to: usize) -> (r: bool)
    requires
        from <= to <= chars@.len(),
    ensures
        r == is_ipv4(chars@.subrange(from as int, to as int)),
{
    let address = chars_of(text_between(chars, from, to).as_str());
    let parts = split_ranges(&address, '.');
    if parts.len() != 4 {
        return false;
    }
    proof {
        let all = text::parts_of(address@, parts@);
        assert(all[0] == address@.subrange(parts@[0].0 as int, parts@[0].1 as int));
        assert(all[1] == address@.subrange(parts@[1].0 as int, parts@[1].1 as int));
        assert(all[2] == address@.subrange(parts@[2].0 as int, parts@[2].1 as int));
        assert(all[3] == address@.subrange(parts@[3].0 as int, parts@[3].1 as int));
    }
    octet_in(&address, parts[0].0, parts[0].1) && octet_in(&address, parts[1].0, parts[1].1)
        && octet_in(&address, parts[2].0, parts[2].1) && octet_in(
        &address,
        parts[3].0,
        parts[3].1,
    )
}

/// Lowers the priority of a candidate with an IPv4 address, so that IPv6 is tried first. Every
/// other line is handed back as it is.
pub fn bump_ipv6_priority(candidate: &str) -> (r: String)
    ensures
        r@ == preferred(candidate@),
{
    let chars = chars_of(candidate);
    let fields = split_ranges(&chars, ' ');
    if fields.len() < 6 {
        return candidate.to_owned();
    }
    let ghost all = text::split(candidate@, ' ');
    proof {
        assert(all == text::parts_of(chars@, fields@));
        assert(all[4] == chars@.subrange(fields@[4].0 as int, fields@[4].1 as int));
        assert(all[3] == chars@.subrange(fields@[3].0 as int, fields@[3].1 as int));
    }
    if !ipv4_in(&chars, fields[4].0, fields[4].1) {
        return candidate.to_owned();
    }
    let priority: u32 = match read_number(&chars, fields[3].0, fields[3].1, u32::MAX as u64) {
        Some(p) => p as u32,
        None => return candidate.to_owned(),
    };
    let penalised: u32 = priority.saturating_sub(IPV4_PRIORITY_PENALTY);
    let ghost changed = all.update(3, text::decimal(lowered(priority as nat)));
    let mut out = String::new();
    let mut i: usize = 0;
    while i < fields.len()
        invariant
            i <= fields@.len(),
            fields@.len() >= 6,
            all == text::parts_of(chars@, fields@),
            changed == all.update(3, text::decimal(penalised as nat)),
            forall|k: int|
                0 <= k < fields@.len() ==> (#[trigger] fields@[k]).0 <= fields@[k].1
                    <= chars@.len(),
            out@ == text::join(changed.take(i as int), ' '),
        decreases fields@.len() - i,
    {
        let ghost done = changed.take(i as int);
        proof {
            assert(changed.take(i + 1).drop_last() == done);
            assert(changed.take(i + 1).last() == changed[i as int]);
        }
        if i > 0 {
            out.push(' ');
        }
        if i == 3 {
            push_decimal(&mut out, penalised as u64);
        } else {
            let part = text_between(&chars, fields[i].0, fields[i].1);
            out.append(part.as_str());
            proof {
                assert(part@ == all[i as int]);
            }
        }
        proof {
            if i == 0 {
                assert(changed.take(1) =~= seq![changed[0]]);
                assert(out@ =~= changed[0]);
            } else {
                assert(out@ =~= text::join(done, ' ').push(' ') + changed[i as int]);
            }
        }
        i += 1;
    }
    proof {
        assert(changed.take(changed.len() as int) == changed);
    }
    out
}

/// Lowering keeps the order of IPv4 candidates among each other, never raises one, and puts every
/// one of them below the penalty's counterpart of the largest priority.
pub proof fn law_lowering_keeps_the_order(a: nat, b: nat)
    requires
        a <= b <= u32::MAX,
    ensures
        lowered(a) <= lowered(b),
        lowered(b) <= b,
        lowered(b) <= u32::MAX - IPV4_PRIORITY_PENALTY,
{
}

/// A line that names no IPv4 address where a candidate has its address is left alone.
pub proof fn law_other_candidates_are_unchanged(candidate: Seq<char>)
    requires
        text::split(candidate, ' ').len() < 6 || !is_ipv4(text::split(candidate, ' ')[4]),
    ensures
        preferred(candidate) == candidate,
{
}

/// A candidate as it is handed to the browser.
#[derive(Clone, Debug)]
pub struct CandidateInit {
    pub candidate: String,
    pub sdp_mid: Option<String>,
    pub sdp_m_line_index: Option<u16>,
}

/// What a candidate in JSON holds, as far as it is read.
#[derive(Clone, Debug)]
pub struct CandidateParts {
    pub candidate: Option<String>,
    pub sdp_mid: Option<String>,
    pub sdp_m_line_index: Option<u64>,
}

/// Whether parts are those of a JSON value.
pub open spec fn are_parts_of(p: CandidateParts, j: json::Json) -> bool {
    &&& text::content_of(p.candidate) == json::text_at(j, "candidate"@)
    &&& text::content_of(p.sdp_mid) == json::text_at(j, "sdpMid"@)
    &&& p.sdp_m_line_index == json::number_at(j, "sdpMLineIndex"@)
}

/// The low bits of a number.
pub open spec fn low_bits(n: Option<u64>) -> Option<u16> {
    match n {
        Some(n) => Some((n % 0x1_0000) as u16),
        None => None,
    }
}

/// The candidate that parts make up. Without the line itself there is none.
pub fn candidate_of_parts(p: CandidateParts) -> (r: Result<CandidateInit, String>)
    ensures
        match p.candidate {
            Some(line) => r == Ok::<CandidateInit, String>(
                CandidateInit {
                    candidate: line,
                    sdp_mid: p.sdp_mid,
                    sdp_m_line_index: low_bits(p.sdp_m_line_index),
                },
            ),
            None => r matches Err(message) && message@ == "ice candidate missing .candidate"@,
        },
{
    match p.candidate {
        Some(candidate) => {
            let sdp_m_line_index = match p.sdp_m_line_index {
                Some(n) => Some((n % 0x1_0000) as u16),
                None => None,
            };
            Ok(CandidateInit { candidate, sdp_mid: p.sdp_mid, sdp_m_line_index })
        },
        None => Err("ice candidate missing .candidate".to_owned()),
    }
}

/// Reads the parts of a candidate in JSON.
pub fn read_candidate_parts(candidate_json: &str) -> (r: Result<CandidateParts, String>)
    ensures
        match json::parsed(candidate_json@) {
            Ok(j) => r matches Ok(p) && are_parts_of(p, j),
            Err(words) => r matches Err(message) && message@ == "ice candidate json: "@ + words,
        },
{
    match json::parse(candidate_json) {
        Ok(value) => Ok(
            CandidateParts {
                candidate: json::text_field(&value, "candidate"),
                sdp_mid: json::text_field(&value, "sdpMid"),
                sdp_m_line_index: json::number_field(&value, "sdpMLineIndex"),
            },
        ),
        Err(message) => Err(joined("ice candidate json: ", message.as_str())),
    }
}

/// Reads a candidate in JSON.
pub fn read_candidate(candidate_json: &str) -> (r: Result<CandidateInit, String>)
    ensures
        match json::parsed(candidate_json@) {
            Ok(j) => match json::text_at(j, "candidate"@) {
                Some(line) => r matches Ok(init) && {
                    &&& init.candidate@ == line
                    &&& text::content_of(init.sdp_mid) == json::text_at(j, "sdpMid"@)
                    &&& init.sdp_m_line_index == low_bits(json::number_at(j, "sdpMLineIndex"@))
                },
                None => r matches Err(message) && message@ == "ice candidate missing .candidate"@,
            },
            Err(words) => r matches Err(message) && message@ == "ice candidate json: "@ + words,
        },
{
    match read_candidate_parts(candidate_json) {
        Ok(parts) => candidate_of_parts(parts),
        Err(message) => Err(message),
    }
}

/// The servers to ask for a way to another player: those that have been named, or else a public
/// one. Some browsers do not open a connection without any.
pub fn servers_or_default(servers: Vec<IceServerConfig>) -> (r: Vec<IceServerConfig>)
    ensures
        servers@.len() > 0 ==> r@ == servers@,
        servers@.len() == 0 ==> {
            &&& r@.len() == 1
            &&& r@[0].urls@.len() == 1
            &&& r@[0].urls@[0]@ == "stun:stun.l.google.com:19302"@
            &&& r@[0].username is None
            &&& r@[0].credential is None
        },
{
    if servers.len() > 0 {
        return servers;
    }
    let mut urls: Vec<String> = Vec::new();
    urls.push("stun:stun.l.google.com:19302".to_owned());
    let mut public: Vec<IceServerConfig> = Vec::new();
    public.push(IceServerConfig { urls, username: None, credential: None });
    public
}

/// A priority loses the penalty, and what is smaller than the penalty becomes nothing.
pub proof fn law_priorities_lose_the_penalty(p: nat)
    ensures
        p >= 0x4000_0000 ==> lowered(p) + 0x4000_0000 == p,
        p <= 0x4000_0000 ==> lowered(p) == 0,
{
}

/// A candidate with an address of the old kind loses priority and nothing else: it has as many
/// fields as before, all of them are as they were but the fourth, and the fourth is the lowered
/// priority.
pub proof fn law_only_the_priority_is_lowered(candidate: Seq<char>, p: nat, i: int)
    requires
        text::split(candidate, ' ').len() >= 6,
        is_ipv4(text::split(candidate, ' ')[4]),
        text::number_of(text::split(candidate, ' ')[3]) == Some(p),
        p <= u32::MAX,
    ensures
        ({
            let before = text::split(candidate, ' ');
            let after = text::split(preferred(candidate), ' ');
            &&& after.len() == before.len()
            &&& 0 <= i < before.len() && i != 3 ==> after[i] == before[i]
            &&& text::number_of(after[3]) == Some(lowered(p))
            &&& p >= 0x4000_0000 ==> text::number_of(after[3]) == Some((p - 0x4000_0000) as nat)
        }),
{
    let before = text::split(candidate, ' ');
    let field = text::decimal(lowered(p));
    let parts = before.update(3, field);
    text::lemma_decimal_digits(lowered(p));
    text::law_decimal_round_trip(lowered(p));
    assert forall|k: int| 0 <= k < parts.len() implies !(#[trigger] parts[k]).contains(' ') by {
        if k == 3 {
            assert(parts[k] == field);
            if field.contains(' ') {
                let j = choose|j: int| 0 <= j < field.len() && field[j] == ' ';
                assert(text::is_digit(field[j]));
            }
        } else {
            assert(parts[k] == before[k]);
            text::law_parts_hold_no_separator(candidate, ' ', k);
        }
    }
    text::law_join_then_split(parts, ' ');
}

/// A candidate that has no priority to read is left as it is.
pub proof fn law_candidates_without_a_priority_are_unchanged(candidate: Seq<char>)
    requires
        text::split(candidate, ' ').len() >= 6,
        text::number_of(text::split(candidate, ' ')[3]) is None || text::number_of(
            text::split(candidate, ' ')[3],
        )->0 > u32::MAX,
    ensures
        preferred(candidate) == candidate,
{
}

/// An address of the old kind is four numbers up to 255 with dots between them.
pub proof fn law_old_addresses_are_four_numbers(a: nat, b: nat, c: nat, d: nat)
    requires
        a <= 255,
        b <= 255,
        c <= 255,
    ensures
        is_ipv4(
            text::join(
                seq![text::decimal(a), text::decimal(b), text::decimal(c), text::decimal(d)],
                '.',
            ),
        ) <==> d <= 255,
{
    let parts = seq![text::decimal(a), text::decimal(b), text::decimal(c), text::decimal(d)];
    text::lemma_decimal_digits(a);
    text::lemma_decimal_digits(b);
    text::lemma_decimal_digits(c);
    text::lemma_decimal_digits(d);
    assert forall|k: int| 0 <= k < parts.len() implies !(#[trigger] parts[k]).contains('.') by {
        let part = parts[k];
        if part.contains('.') {
            let j = choose|j: int| 0 <= j < part.len() && part[j] == '.';
            assert(text::is_digit(part[j]));
        }
    }
    text::law_join_then_split(parts, '.');
    if is_octet(parts[3]) {
        let n = choose|n: nat| n <= 255 && parts[3] == #[trigger] text::decimal(n);
        text::law_decimal_is_injective(n, d);
    }
}

/// The number of a media line is taken as it is where it fits.
pub proof fn law_line_numbers_are_kept(n: u64)
    ensures
        n <= u16::MAX ==> low_bits(Some(n)) == Some(n as u16),
        low_bits(None) is None,
        low_bits(Some(n)) is Some,
        n < u64::MAX - 0x1_0000 ==> low_bits(Some((n + 0x1_0000) as u64)) == low_bits(Some(n)),
{
}

/// The parts of a candidate stand under the names that the browser gives them.
pub proof fn law_parts_stand_under_their_names(
    p: CandidateParts,
    m: Map<Seq<char>, json::Json>,
    s: Seq<char>,
    n: u64,
)
    requires
        are_parts_of(p, json::Json::Object(m)),
    ensures
        m.contains_key("candidate"@) && m["candidate"@] == json::Json::Text(s) ==> p.candidate is Some
            && p.candidate->0@ == s,
        m.contains_key("sdpMid"@) && m["sdpMid"@] == json::Json::Text(s) ==> p.sdp_mid is Some
            && p.sdp_mid->0@ == s,
        m.contains_key("sdpMLineIndex"@) && m["sdpMLineIndex"@] == json::Json::Number(Some(n))
            ==> p.sdp_m_line_index == Some(n),
        !m.contains_key("candidate"@) ==> p.candidate is None,
        !m.contains_key("sdpMid"@) ==> p.sdp_mid is None,
        !m.contains_key("sdpMLineIndex"@) ==> p.sdp_m_line_index is None,
{
}

} // verus!
