//! Whom the host sends a message to, and how fast it may send through the signaling service.
use std::collections::HashMap;

use vstd::prelude::*;

use crate::maps::keys_of;
use crate::protocol::{EntityId, OutboundMessage, Recipient};

verus! {

broadcast use vstd::std_specs::hash::group_hash_axioms;

/// Messages per second assumed of a relay that has named no rate.
pub const DEFAULT_RELAY_MAX_RATE: u32 = 200;

/// What one message costs. A limiter that may send `r` messages a second gains `5 * r` of these
/// units in a microsecond.
pub const TOKEN: u64 = 5_000_000;

/// Where a message goes: to which players, and whether to the host itself.
#[derive(Debug, PartialEq)]
pub struct RoutingPlan {
    pub peers_to_send: Vec<u32>,
    pub send_to_local: bool,
}

/// Whether a recipient includes a player.
pub open spec fn addresses(recipient: Recipient, entity: EntityId) -> bool {
    match recipient {
        Recipient::All => true,
        Recipient::Except(excluded) => entity != excluded,
        Recipient::One(target) => entity == target,
    }
}

/// Whether a message for one player stops at the host itself.
pub open spec fn stays_home(recipient: Recipient, host: Option<EntityId>) -> bool {
    recipient matches Recipient::One(target) && host == Some(target)
}

/// Whether `peer` is connected and addressed.
pub open spec fn is_target(recipient: Recipient, peers: Map<u32, EntityId>, peer: u32) -> bool {
    peers.contains_key(peer) && addresses(recipient, peers[peer])
}

/// Whether a plan delivers a message as its recipient says.
///
/// The host itself is reached if it takes part and is addressed. A message for all, or for all
/// but one, goes once to each player addressed; one for a single player goes to one connection of
/// that player, if there is any, unless that player is the host.
pub open spec fn delivers(
    plan: RoutingPlan,
    recipient: Recipient,
    peers: Map<u32, EntityId>,
    host: Option<EntityId>,
) -> bool {
    &&& plan.send_to_local == (host matches Some(me) && addresses(recipient, me))
    &&& plan.peers_to_send@.no_duplicates()
    &&& forall|p: u32| #[trigger]
        plan.peers_to_send@.contains(p) ==> is_target(recipient, peers, p)
    &&& stays_home(recipient, host) ==> plan.peers_to_send@.len() == 0
    &&& !(recipient is One) ==> forall|p: u32| #[trigger]
        is_target(recipient, peers, p) ==> plan.peers_to_send@.contains(p)
    &&& recipient is One ==> plan.peers_to_send@.len() <= 1
    &&& recipient is One && !stays_home(recipient, host) && plan.peers_to_send@.len() == 0
        ==> forall|p: u32| !#[trigger] is_target(recipient, peers, p)
}

/// Plans where a message goes.
pub fn plan_route(
    msg: &OutboundMessage,
    peer_to_entity: &HashMap<u32, EntityId>,
    host_self: Option<EntityId>,
) -> (r: RoutingPlan)
    ensures
        delivers(r, msg.recipient, peer_to_entity@, host_self),
{
    let recipient = msg.recipient;
    let peers = keys_of(peer_to_entity);
    let send_to_local = match host_self {
        Some(me) => is_addressed(recipient, me),
        None => false,
    };
    let single = match recipient {
        Recipient::One(_) => true,
        _ => false,
    };
    let mut targets: Vec<u32> = Vec::new();
    if single && send_to_local {
        return RoutingPlan { peers_to_send: targets, send_to_local };
    }
    let mut i: usize = 0;
    while i < peers.len() && !(single && targets.len() == 1)
        invariant
            i <= peers@.len(),
            crate::maps::lists_set(peers@, peer_to_entity@.dom()),
            single == (recipient is One),
            single ==> targets@.len() <= 1,
            targets@.no_duplicates(),
            forall|k: int|
                0 <= k < targets@.len() ==> is_target(
                    recipient,
                    peer_to_entity@,
                    #[trigger] targets@[k],
                ) && peers@.take(i as int).contains(targets@[k]),
            forall|k: int|
                0 <= k < i && is_target(recipient, peer_to_entity@, #[trigger] peers@[k])
                    ==> targets@.contains(peers@[k]),
        decreases peers@.len() - i,
    {
        let peer: u32 = peers[i];
        proof {
            assert(peers@.contains(peer));
            assert(peer_to_entity@.dom().contains(peer));
        }
        let ghost before = targets@;
        let ghost seen = peers@.take(i as int);
        if let Some(entity) = peer_to_entity.get(&peer) {
            if is_addressed(recipient, *entity) {
                targets.push(peer);
            }
        }
        proof {
            let longer = peers@.take(i + 1);
            assert(longer == seen.push(peer));
            assert forall|k: int| 0 <= k < targets@.len() implies is_target(
                recipient,
                peer_to_entity@,
                #[trigger] targets@[k],
            ) && longer.contains(targets@[k]) by {
                if k < before.len() {
                    assert(before[k] == targets@[k]);
                    assert(seen.contains(targets@[k]));
                    let j = choose|j: int| 0 <= j < seen.len() && seen[j] == targets@[k];
                    assert(longer[j] == targets@[k]);
                } else {
                    assert(longer[i as int] == peer);
                }
            }
            if targets@.len() > before.len() {
                assert forall|k: int| 0 <= k < before.len() implies before[k] != peer by {
                    assert(targets@[k] == before[k]);
                    assert(seen.contains(before[k]));
                    let j = choose|j: int| 0 <= j < seen.len() && seen[j] == before[k];
                    assert(peers@[j] != peers@[i as int]);
                }
            }
            assert forall|k: int|
                0 <= k < i + 1 && is_target(recipient, peer_to_entity@, #[trigger] peers@[k])
                implies targets@.contains(peers@[k]) by {
                if k < i {
                    let j = choose|j: int| 0 <= j < before.len() && before[j] == peers@[k];
                    assert(targets@[j] == peers@[k]);
                } else {
                    assert(targets@[before.len() as int] == peer);
                }
            }
        }
        i += 1;
    }
    proof {
        assert forall|p: u32|
            !(single && targets@.len() == 1) && #[trigger] is_target(recipient, peer_to_entity@, p)
            implies targets@.contains(p) by {
            assert(peers@.contains(p));
            let k = choose|k: int| 0 <= k < peers@.len() && peers@[k] == p;
            assert(is_target(recipient, peer_to_entity@, peers@[k]));
        }
    }
    RoutingPlan { peers_to_send: targets, send_to_local }
}

fn is_addressed(recipient: Recipient, entity: EntityId) -> (r: bool)
    ensures
        r == addresses(recipient, entity),
{
    match recipient {
        Recipient::All => true,
        Recipient::Except(excluded) => entity != excluded,
        Recipient::One(target) => entity == target,
    }
}

/// Of a message for all but one player, the excluded player gets nothing and every other connected
/// player gets it.
pub proof fn law_excluded_player_gets_nothing(
    plan: RoutingPlan,
    excluded: EntityId,
    peers: Map<u32, EntityId>,
    host: Option<EntityId>,
    p: u32,
)
    requires
        delivers(plan, Recipient::Except(excluded), peers, host),
        peers.contains_key(p),
    ensures
        plan.peers_to_send@.contains(p) <==> peers[p] != excluded,
        host == Some(excluded) ==> !plan.send_to_local,
{
    assert(is_target(Recipient::Except(excluded), peers, p) <==> peers[p] != excluded);
}

/// Limits how many messages go through the signaling service, below the rate that it tolerates.
#[derive(Copy, Clone, Debug, PartialEq, Eq, Structural)]
pub struct RelayRateLimiter {
    /// Units gained in a microsecond.
    refill_per_us: u64,
    /// Units on hand.
    tokens: u64,
    last_refill_us: u64,
}

/// Four fifths of a rate, one message a second at least, in units gained in a microsecond.
pub open spec fn safe_refill(max_rate: u32) -> u64 {
    if max_rate <= 1 {
        5
    } else {
        (4 * max_rate) as u64
    }
}

impl RelayRateLimiter {
    pub closed spec fn refill(self) -> u64 {
        self.refill_per_us
    }

    pub closed spec fn stock(self) -> u64 {
        self.tokens
    }

    pub closed spec fn filled_at(self) -> u64 {
        self.last_refill_us
    }

    /// Units that the limiter can hold: what it gains in a second.
    pub open spec fn capacity(self) -> nat {
        self.refill() as nat * 1_000_000
    }

    pub open spec fn wf(self) -> bool {
        &&& 5 <= self.refill() <= 0x4_0000_0000
        &&& self.stock() <= self.capacity()
    }

    /// Units on hand at time `now`.
    pub open spec fn stock_at(self, now: u64) -> nat {
        if now <= self.filled_at() {
            self.stock() as nat
        } else {
            let gained = (now - self.filled_at()) as nat * self.refill() as nat;
            if self.stock() + gained > self.capacity() {
                self.capacity()
            } else {
                self.stock() as nat + gained
            }
        }
    }

    /// The later of the last refill and `now`.
    pub open spec fn clock_at(self, now: u64) -> u64 {
        if now <= self.filled_at() {
            self.filled_at()
        } else {
            now
        }
    }

    /// A full limiter for a relay that tolerates `max_rate` messages a second.
    pub fn new(max_rate: u32, now_us: u64) -> (r: RelayRateLimiter)
        ensures
            r.wf(),
            r.refill() == safe_refill(max_rate),
            r.stock() == r.capacity(),
            r.filled_at() == now_us,
    {
        let refill: u64 = if max_rate <= 1 {
            5
        } else {
            4 * max_rate as u64
        };
        RelayRateLimiter {
            refill_per_us: refill,
            tokens: refill * 1_000_000,
            last_refill_us: now_us,
        }
    }

    /// A full limiter for a relay that has named no rate.
    pub fn with_default_rate(now_us: u64) -> (r: RelayRateLimiter)
        ensures
            r.wf(),
            r.refill() == safe_refill(DEFAULT_RELAY_MAX_RATE),
            r.stock() == r.capacity(),
            r.filled_at() == now_us,
    {
        RelayRateLimiter::new(DEFAULT_RELAY_MAX_RATE, now_us)
    }

    /// Whether a message may be sent now.
    pub fn has_token(&mut self, now_us: u64) -> (r: bool)
        requires
            old(self).wf(),
        ensures
            final(self).wf(),
            final(self).refill() == old(self).refill(),
            final(self).stock() == old(self).stock_at(now_us),
            final(self).filled_at() == old(self).clock_at(now_us),
            r == (old(self).stock_at(now_us) >= TOKEN),
    {
        self.fill(now_us);
        self.tokens >= TOKEN
    }

    /// Pays for one message; a limiter without enough is emptied.
    pub fn consume_token(&mut self, now_us: u64)
        requires
            old(self).wf(),
        ensures
            final(self).wf(),
            final(self).refill() == old(self).refill(),
            final(self).stock() == (if old(self).stock_at(now_us) >= TOKEN {
                old(self).stock_at(now_us) - TOKEN
            } else {
                0
            }),
            final(self).filled_at() == old(self).clock_at(now_us),
    {
        self.fill(now_us);
        self.tokens = if self.tokens >= TOKEN {
            self.tokens - TOKEN
        } else {
            0
        };
    }

    fn fill(&mut self, now_us: u64)
        requires
            old(self).wf(),
        ensures
            final(self).wf(),
            final(self).refill() == old(self).refill(),
            final(self).stock() == old(self).stock_at(now_us),
            final(self).filled_at() == old(self).clock_at(now_us),
    {
        if now_us <= self.last_refill_us {
            return;
        }
        let elapsed: u64 = now_us - self.last_refill_us;
        let capacity: u64 = self.refill_per_us * 1_000_000;
        proof {
            assert(elapsed as u128 * self.refill_per_us as u128 <= 0xffff_ffff_ffff_ffff
                * 0x4_0000_0000) by (nonlinear_arith)
                requires
                    elapsed <= 0xffff_ffff_ffff_ffff,
                    self.refill_per_us <= 0x4_0000_0000,
            ;
            assert((elapsed as nat) * (self.refill_per_us as nat) == elapsed as u128
                * self.refill_per_us as u128);
        }
        let gained: u128 = elapsed as u128 * self.refill_per_us as u128;
        let sum: u128 = self.tokens as u128 + gained;
        self.tokens = if sum > capacity as u128 {
            capacity
        } else {
            sum as u64
        };
        self.last_refill_us = now_us;
    }
}

/// Stock of a limiter after messages sent at `times`, each of which it allowed.
pub open spec fn allowed_run(start: RelayRateLimiter, end: RelayRateLimiter, times: Seq<u64>) -> bool
    decreases times.len(),
{
    if times.len() == 0 {
        start == end
    } else {
        exists|mid: RelayRateLimiter| #[trigger]
            allowed_send(mid, end, times.last()) && allowed_run(start, mid, times.drop_last())
    }
}

/// One message that a limiter allowed at time `now`.
pub open spec fn allowed_send(before: RelayRateLimiter, after: RelayRateLimiter, now: u64) -> bool {
    &&& before.stock_at(now) >= TOKEN
    &&& after.refill() == before.refill()
    &&& after.stock() == before.stock_at(now) - TOKEN
    &&& after.filled_at() == before.clock_at(now)
}

/// A limiter never lets more through than its store and what it gains meanwhile: `n` messages
/// cost no more than the units on hand at the start and those gained up to the last of them.
pub proof fn law_limiter_bounds_the_rate(
    start: RelayRateLimiter,
    end: RelayRateLimiter,
    times: Seq<u64>,
)
    requires
        allowed_run(start, end, times),
    ensures
        end.refill() == start.refill(),
        end.filled_at() >= start.filled_at(),
        times.len() * TOKEN + end.stock() <= start.stock() + (end.filled_at() - start.filled_at())
            * start.refill(),
    decreases times.len(),
{
    if times.len() > 0 {
        let mid = choose|mid: RelayRateLimiter| #[trigger]
            allowed_send(mid, end, times.last()) && allowed_run(start, mid, times.drop_last());
        law_limiter_bounds_the_rate(start, mid, times.drop_last());
        let now = times.last();
        let r = start.refill() as int;
        let gained = (end.filled_at() - mid.filled_at()) * r;
        assert(gained >= 0) by (nonlinear_arith)
            requires
                gained == (end.filled_at() - mid.filled_at()) * r,
                end.filled_at() >= mid.filled_at(),
                r >= 0,
        ;
        assert(mid.stock_at(now) <= mid.stock() + gained);
        assert((end.filled_at() - start.filled_at()) * r == (mid.filled_at() - start.filled_at())
            * r + gained) by (nonlinear_arith)
            requires
                gained == (end.filled_at() - mid.filled_at()) * r,
        ;
    } else {
        assert((end.filled_at() - start.filled_at()) * start.refill() == 0) by (nonlinear_arith)
            requires
                end.filled_at() == start.filled_at(),
        ;
    }
}

/// A message for all reaches every player and the host; one for a single player reaches that player
/// alone: the host itself, or one connection of the player.
pub proof fn law_messages_reach_whom_they_are_for(
    plan: RoutingPlan,
    recipient: Recipient,
    peers: Map<u32, EntityId>,
    host: Option<EntityId>,
    p: u32,
)
    requires
        delivers(plan, recipient, peers, host),
    ensures
        plan.peers_to_send@.contains(p) ==> peers.contains_key(p),
        recipient is All ==> (plan.peers_to_send@.contains(p) <==> peers.contains_key(p)),
        recipient is All ==> (plan.send_to_local <==> host is Some),
        recipient matches Recipient::One(target) ==> {
            &&& plan.peers_to_send@.contains(p) ==> peers[p] == target
            &&& plan.peers_to_send@.len() <= 1
            &&& plan.send_to_local <==> host == Some(target)
            &&& plan.send_to_local ==> plan.peers_to_send@.len() == 0
            &&& peers.contains_key(p) && peers[p] == target && host != Some(target)
                ==> plan.peers_to_send@.len() == 1
        },
{
    if recipient is One && peers.contains_key(p) && is_target(recipient, peers, p) && !stays_home(
        recipient,
        host,
    ) {
        assert(is_target(recipient, peers, p));
    }
    if recipient is All && peers.contains_key(p) {
        assert(is_target(recipient, peers, p));
    }
    if plan.peers_to_send@.contains(p) {
        assert(is_target(recipient, peers, p));
    }
}

/// A relay is used at four fifths of the rate that it tolerates, and at least once a second: what is
/// gained in a second pays for so many messages.
pub proof fn law_a_relay_is_not_driven_to_its_limit(max_rate: u32)
    ensures
        max_rate >= 2 ==> 5 * (safe_refill(max_rate) * 1_000_000) == 4 * (max_rate * TOKEN),
        max_rate <= 1 ==> safe_refill(max_rate) * 1_000_000 == TOKEN,
        safe_refill(max_rate) >= 5,
{
}

/// What a limiter has in stock grows with time, never beyond what one second gains, and is full
/// after a second; a clock that runs back takes nothing away.
pub proof fn law_a_limiter_fills_up(l: RelayRateLimiter, now: u64, later: u64)
    requires
        l.wf(),
        now <= later,
    ensures
        l.stock() <= l.stock_at(now) <= l.stock_at(later) <= l.capacity(),
        later - l.filled_at() >= 1_000_000 ==> l.stock_at(later) == l.capacity(),
        now <= l.filled_at() ==> l.stock_at(now) == l.stock(),
        now >= l.filled_at() && l.stock_at(now) < l.capacity() ==> l.stock_at(now) == l.stock() + (now
            - l.filled_at()) * l.refill(),
{
    assert(now > l.filled_at() ==> (now - l.filled_at()) as nat * l.refill() as nat >= 0)
        by (nonlinear_arith);
    if now > l.filled_at() {
        assert((now - l.filled_at()) as nat * l.refill() as nat <= (later - l.filled_at()) as nat
            * l.refill() as nat) by (nonlinear_arith)
            requires
                now <= later,
                now > l.filled_at(),
        ;
    }
    if later > l.filled_at() {
        assert((later - l.filled_at()) as nat * l.refill() as nat >= 0) by (nonlinear_arith)
            requires
                later > l.filled_at(),
        ;
    }
    if now == l.filled_at() {
        assert((now - l.filled_at()) * l.refill() == 0) by (nonlinear_arith)
            requires
                now == l.filled_at(),
        ;
    }
    if later - l.filled_at() >= 1_000_000 {
        assert((later - l.filled_at()) as nat * l.refill() as nat >= l.refill() as nat
            * 1_000_000) by (nonlinear_arith)
            requires
                later - l.filled_at() >= 1_000_000,
        ;
    }
}

} // verus!
