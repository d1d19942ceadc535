//! The host's side of a room: what it does when the signaling service or a player's connection
//! reports something, and which messages may go out now.
//!
//! The host decides; opening connections, sending and decoding are done by its caller, who hands
//! back what happened.
use std::collections::{HashMap, HashSet};

use vstd::prelude::*;

use crate::maps::keys_of;
use crate::peer::{PeerEvent, PeerState};
use crate::protocol::{ClientMessage, EntityId, PROTOCOL_VERSION, RoomEvent};
use crate::relay::{RelayRateLimiter, RoutingPlan};
use crate::room;
use crate::room::RoomSession;
use crate::signaling::{IceServerConfig, SignalingEvent};
use crate::transport::ChannelKind;

verus! {

broadcast use vstd::std_specs::hash::group_hash_axioms;

/// How long a connection may take before its messages are relayed, in microseconds.
pub const NEGOTIATION_TIMEOUT_US: u64 = 15_000_000;

/// How far the negotiation with a player has got.
#[derive(Copy, Clone, Debug, PartialEq, Eq, Structural)]
pub struct PendingNegotiation {
    pub offer_sent: bool,
    pub answer_received: bool,
}

impl Default for PendingNegotiation {
    fn default() -> (r: PendingNegotiation)
        ensures
            r == (PendingNegotiation { offer_sent: false, answer_received: false }),
    {
        PendingNegotiation { offer_sent: false, answer_received: false }
    }
}

/// What the host's caller has to do.
#[derive(Clone, Debug)]
pub enum HostAction {
    /// Open a connection to a player and make it an offer; then report that it was opened.
    OpenPeer { peer_id: u32 },
    ClosePeer { peer_id: u32 },
    ApplyAnswer { peer_id: u32, sdp: String },
    AddIce { peer_id: u32, candidate: String },
    SendOffer { peer_id: u32, sdp: String },
    SendIce { peer_id: u32, candidate: String },
    /// Ask the signaling service to relay the messages of a player.
    RequestRelay { peer_id: u32 },
    /// Decode a player's message and act on it.
    Deliver { peer_id: u32, bytes: Vec<u8> },
    Tell { event: RoomEvent },
}

/// What the host keeps of its room.
pub struct HostState {
    session: RoomSession,
    ice_servers: Vec<IceServerConfig>,
    peers: HashMap<u32, PeerState>,
    pending: HashMap<u32, PendingNegotiation>,
    started_us: HashMap<u32, u64>,
    relayed: HashSet<u32>,
    limiters: HashMap<u32, RelayRateLimiter>,
    requested: HashSet<u32>,
    entities: HashMap<u32, EntityId>,
    host_entity: Option<EntityId>,
}

/// The host's state as mathematics.
#[verifier::ext_equal]
pub struct HostView {
    pub session: RoomSession,
    pub servers: Seq<IceServerConfig>,
    /// Direct connections and their states.
    pub peers: Map<u32, PeerState>,
    pub pending: Map<u32, PendingNegotiation>,
    /// When the negotiations that are still under way began.
    pub started: Map<u32, u64>,
    /// Players whose messages are relayed.
    pub relayed: Set<u32>,
    pub limiters: Map<u32, RelayRateLimiter>,
    /// Players for whom a relay has been asked for.
    pub requested: Set<u32>,
    /// Which player's entity each connection stands for.
    pub entities: Map<u32, EntityId>,
    pub host: Option<EntityId>,
}

/// Whether the parts of a host's state agree with each other.
pub open spec fn host_wf(v: HostView) -> bool {
    &&& v.pending.dom() == v.peers.dom()
    &&& v.started.dom().subset_of(v.peers.dom())
    &&& v.limiters.dom() == v.relayed
    &&& v.requested.disjoint(v.relayed)
    &&& forall|p: u32| v.limiters.contains_key(p) ==> (#[trigger] v.limiters[p]).wf()
    &&& v.peers.dom().finite()
    &&& v.relayed.finite()
}

/// Number of players, counted to 32 bits.
pub open spec fn head_count(v: HostView) -> u32 {
    (v.peers.dom().len() + v.relayed.len()) as u32
}

pub open spec fn tell(event: RoomEvent) -> HostAction {
    HostAction::Tell { event }
}

/// The state without any trace of a player's connection.
pub open spec fn without_peer(v: HostView, p: u32) -> HostView {
    HostView {
        peers: v.peers.remove(p),
        pending: v.pending.remove(p),
        started: v.started.remove(p),
        relayed: v.relayed.remove(p),
        limiters: v.limiters.remove(p),
        requested: v.requested.remove(p),
        ..v
    }
}

/// The state once the messages of a player are relayed: the direct connection is given up.
pub open spec fn with_relay(v: HostView, p: u32, limiter: RelayRateLimiter) -> HostView {
    let direct = HostView {
        peers: v.peers.remove(p),
        pending: v.pending.remove(p),
        started: v.started.remove(p),
        requested: v.requested.remove(p),
        ..v
    };
    if v.relayed.contains(p) {
        direct
    } else {
        HostView {
            relayed: v.relayed.insert(p),
            limiters: v.limiters.insert(p, limiter),
            session: room::with_channel(v.session),
            ..direct
        }
    }
}

/// Whether `limiter` is a full one for a relay that tolerates `max_rate`.
pub open spec fn is_new_limiter(limiter: RelayRateLimiter, max_rate: u32, now: u64) -> bool {
    &&& limiter.wf()
    &&& limiter.refill() == crate::relay::safe_refill(max_rate)
    &&& limiter.stock() == limiter.capacity()
    &&& limiter.filled_at() == now
}

/// The state after a report of the signaling service.
///
/// `limiter` is the one that a newly relayed player gets.
pub open spec fn after_signal(v: HostView, ev: SignalingEvent, limiter: RelayRateLimiter) -> HostView {
    match ev {
        SignalingEvent::Open => HostView { session: RoomSession::AwaitRegistered, ..v },
        SignalingEvent::Registered { ice_servers, .. } => HostView {
            servers: ice_servers@,
            session: room::negotiating(v.session),
            ..v
        },
        SignalingEvent::PeerLeft { peer_id } => without_peer(v, peer_id),
        SignalingEvent::Answer { from, .. } => if v.peers.contains_key(from) {
            HostView {
                pending: v.pending.insert(
                    from,
                    PendingNegotiation { answer_received: true, ..v.pending[from] },
                ),
                session: room::with_answer(v.session),
                ..v
            }
        } else {
            v
        },
        SignalingEvent::RoomClosed { reason } => HostView {
            session: RoomSession::Disconnected { reason },
            ..v
        },
        SignalingEvent::RelayActive { peer_id, .. } => with_relay(v, peer_id, limiter),
        SignalingEvent::RelayClosed { peer_id, .. } => HostView {
            relayed: v.relayed.remove(peer_id),
            limiters: v.limiters.remove(peer_id),
            requested: v.requested.remove(peer_id),
            ..v
        },
        _ => v,
    }
}

/// What the host wants done after a report of the signaling service.
///
/// `after` is the state that the report leaves behind.
pub open spec fn signal_actions(v: HostView, ev: SignalingEvent, after: HostView) -> Seq<HostAction> {
    match ev {
        SignalingEvent::Registered { .. } => seq![tell(RoomEvent::Connected)],
        SignalingEvent::PeerJoined { peer_id } => seq![HostAction::OpenPeer { peer_id }],
        SignalingEvent::PeerLeft { peer_id } => (if v.peers.contains_key(peer_id) {
            seq![HostAction::ClosePeer { peer_id }]
        } else {
            Seq::empty()
        }) + seq![
            tell(RoomEvent::RemoteLeft { peer_id }),
            tell(RoomEvent::PeerCount(head_count(after))),
        ],
        SignalingEvent::Answer { from, sdp } => if v.peers.contains_key(from) {
            seq![HostAction::ApplyAnswer { peer_id: from, sdp }]
        } else {
            Seq::empty()
        },
        SignalingEvent::Ice { from, candidate } => if v.peers.contains_key(from) {
            seq![HostAction::AddIce { peer_id: from, candidate }]
        } else {
            Seq::empty()
        },
        SignalingEvent::RoomClosed { reason } => seq![tell(RoomEvent::Disconnected { reason })],
        SignalingEvent::ServerError { message } => seq![tell(RoomEvent::SignalingError(message))],
        SignalingEvent::SocketError { message } => seq![tell(RoomEvent::SignalingError(message))],
        SignalingEvent::RelayActive { peer_id, .. } => (if v.peers.contains_key(peer_id) {
            seq![HostAction::ClosePeer { peer_id }]
        } else {
            Seq::empty()
        }) + (if v.relayed.contains(peer_id) {
            Seq::empty()
        } else {
            seq![
                tell(RoomEvent::PeerRelayed { peer_id }),
                tell(RoomEvent::PeerCount(head_count(after))),
            ]
        }),
        SignalingEvent::RelayClosed { peer_id, .. } => seq![
            tell(RoomEvent::RemoteLeft { peer_id }),
            tell(RoomEvent::PeerCount(head_count(after))),
        ],
        SignalingEvent::RelayBinary { sender_peer_id, payload } => if v.relayed.contains(
            sender_peer_id,
        ) {
            seq![HostAction::Deliver { peer_id: sender_peer_id, bytes: payload }]
        } else {
            Seq::empty()
        },
        _ => Seq::empty(),
    }
}

/// Whether a relay for a player may be asked for: not twice, and not for a relayed one.
pub open spec fn may_request(v: HostView, p: u32) -> bool {
    !v.requested.contains(p) && !v.relayed.contains(p)
}

/// Whether a connection is down.
pub open spec fn is_down(s: PeerState) -> bool {
    s == PeerState::Disconnected || s == PeerState::Failed
}

/// The state after something happened on the connection to a player.
pub open spec fn after_peer_event(v: HostView, p: u32, ev: PeerEvent) -> HostView {
    match ev {
        PeerEvent::OfferReady(_) => if v.pending.contains_key(p) {
            HostView {
                pending: v.pending.insert(
                    p,
                    PendingNegotiation { offer_sent: true, ..v.pending[p] },
                ),
                ..v
            }
        } else {
            v
        },
        PeerEvent::StateChanged(s) => {
            let noted = HostView {
                peers: if v.peers.contains_key(p) {
                    v.peers.insert(p, s)
                } else {
                    v.peers
                },
                ..v
            };
            if s == PeerState::Connected {
                HostView {
                    session: room::with_channel(v.session),
                    started: v.started.remove(p),
                    ..noted
                }
            } else if is_down(s) && may_request(v, p) {
                HostView { requested: v.requested.insert(p), ..noted }
            } else {
                noted
            }
        },
        _ => v,
    }
}

/// What the host wants done after something happened on the connection to a player.
pub open spec fn peer_event_actions(v: HostView, p: u32, ev: PeerEvent) -> Seq<HostAction> {
    match ev {
        PeerEvent::OfferReady(sdp) => seq![HostAction::SendOffer { peer_id: p, sdp }],
        PeerEvent::LocalIce(candidate) => seq![HostAction::SendIce { peer_id: p, candidate }],
        PeerEvent::Message { bytes, .. } => seq![HostAction::Deliver { peer_id: p, bytes }],
        PeerEvent::StateChanged(s) => if s == PeerState::Connected {
            seq![tell(RoomEvent::PeerCount(head_count(v)))]
        } else if is_down(s) && may_request(v, p) {
            seq![HostAction::RequestRelay { peer_id: p }]
        } else {
            Seq::empty()
        },
        _ => Seq::empty(),
    }
}

/// The state after a connection to a player was opened.
pub open spec fn after_open(v: HostView, p: u32, now: u64) -> HostView {
    HostView {
        peers: v.peers.insert(p, PeerState::Negotiating),
        pending: v.pending.insert(
            p,
            PendingNegotiation { offer_sent: false, answer_received: false },
        ),
        started: v.started.insert(p, now),
        session: room::with_offer(v.session),
        ..v
    }
}

/// Whether the negotiation with a player has taken too long.
pub open spec fn is_overdue(v: HostView, p: u32, now: u64) -> bool {
    &&& v.started.contains_key(p)
    &&& now - v.started[p] > NEGOTIATION_TIMEOUT_US
    &&& may_request(v, p)
    &&& v.peers.contains_key(p)
    &&& v.peers[p] != PeerState::Connected
}

/// Whether a message may go out now.
#[derive(Clone, Debug)]
pub enum Admission {
    /// A target cannot take it; it waits, and all later messages with it.
    Hold,
    /// It goes to these connections, and to these players through the relay.
    Send { direct: Vec<u32>, relayed: Vec<u32> },
}

/// Whether a target's connection has too much waiting.
pub open spec fn is_clogged(v: HostView, p: u32, channel: ChannelKind, paused: Set<u32>) -> bool {
    channel == ChannelKind::Reliable && !v.relayed.contains(p) && v.peers.contains_key(p)
        && paused.contains(p)
}

/// Whether a target's relay takes no message now.
pub open spec fn is_throttled(v: HostView, p: u32, now: u64) -> bool {
    v.relayed.contains(p) && v.limiters[p].stock_at(now) < crate::relay::TOKEN
}

/// The limiter of a relay after one message at time `now`.
pub open spec fn is_charged(after: RelayRateLimiter, before: RelayRateLimiter, now: u64) -> bool {
    &&& after.wf()
    &&& after.refill() == before.refill()
    &&& after.stock() == before.stock_at(now) - crate::relay::TOKEN
    &&& after.filled_at() == before.clock_at(now)
}

/// A report of the signaling service keeps the parts of the state in agreement.
pub proof fn law_signals_keep_the_state_consistent(
    v: HostView,
    ev: SignalingEvent,
    limiter: RelayRateLimiter,
)
    requires
        host_wf(v),
        limiter.wf(),
    ensures
        host_wf(after_signal(v, ev, limiter)),
{
    let a = after_signal(v, ev, limiter);
    assert(a.pending.dom() =~= a.peers.dom());
    assert(a.limiters.dom() =~= a.relayed);
    assert forall|p: u32| a.limiters.contains_key(p) implies (#[trigger] a.limiters[p]).wf() by {
        if v.limiters.contains_key(p) {
            assert(v.limiters[p].wf());
        }
    }
}

/// What happens on a connection keeps the parts of the state in agreement.
pub proof fn law_peer_events_keep_the_state_consistent(v: HostView, p: u32, ev: PeerEvent)
    requires
        host_wf(v),
    ensures
        host_wf(after_peer_event(v, p, ev)),
{
    let a = after_peer_event(v, p, ev);
    assert(a.pending.dom() =~= a.peers.dom());
    assert(a.limiters.dom() =~= a.relayed);
}

/// A player who has left is nowhere in the state any more.
pub proof fn law_nothing_is_left_of_a_player_who_left(
    v: HostView,
    peer_id: u32,
    limiter: RelayRateLimiter,
)
    ensures
        ({
            let a = after_signal(v, SignalingEvent::PeerLeft { peer_id }, limiter);
            &&& !a.peers.contains_key(peer_id)
            &&& !a.pending.contains_key(peer_id)
            &&& !a.started.contains_key(peer_id)
            &&& !a.relayed.contains(peer_id)
            &&& !a.limiters.contains_key(peer_id)
            &&& !a.requested.contains(peer_id)
        }),
{
}

/// A relayed player has no direct connection any more, and no second relay is asked for.
pub proof fn law_relayed_player_has_no_direct_connection(
    v: HostView,
    peer_id: u32,
    max_rate: u32,
    limiter: RelayRateLimiter,
    ev: PeerEvent,
)
    ensures
        ({
            let a = after_signal(v, SignalingEvent::RelayActive { peer_id, max_rate }, limiter);
            &&& a.relayed.contains(peer_id)
            &&& !a.peers.contains_key(peer_id)
            &&& !a.requested.contains(peer_id)
            &&& !peer_event_actions(a, peer_id, ev).contains(HostAction::RequestRelay { peer_id })
        }),
{
}

/// A second failure of the same connection asks for no second relay.
pub proof fn law_relay_is_asked_for_once(v: HostView, p: u32, first: PeerState, second: PeerState)
    requires
        is_down(first),
    ensures
        !peer_event_actions(
            after_peer_event(v, p, PeerEvent::StateChanged(first)),
            p,
            PeerEvent::StateChanged(second),
        ).contains(HostAction::RequestRelay { peer_id: p }),
{
}

impl View for HostState {
    type V = HostView;

    closed spec fn view(&self) -> HostView {
        HostView {
            session: self.session,
            servers: self.ice_servers@,
            peers: self.peers@,
            pending: self.pending@,
            started: self.started_us@,
            relayed: self.relayed@,
            limiters: self.limiters@,
            requested: self.requested@,
            entities: self.entities@,
            host: self.host_entity,
        }
    }
}

impl HostState {
    /// A host that is about to reach the signaling service.
    pub fn new() -> (r: HostState)
        ensures
            host_wf(r@),
            r@ == (HostView {
                session: RoomSession::SignalingConnect,
                servers: Seq::empty(),
                peers: Map::empty(),
                pending: Map::empty(),
                started: Map::empty(),
                relayed: Set::empty(),
                limiters: Map::empty(),
                requested: Set::empty(),
                entities: Map::empty(),
                host: None,
            }),
    {
        HostState {
            session: RoomSession::SignalingConnect,
            ice_servers: Vec::new(),
            peers: HashMap::new(),
            pending: HashMap::new(),
            started_us: HashMap::new(),
            relayed: HashSet::new(),
            limiters: HashMap::new(),
            requested: HashSet::new(),
            entities: HashMap::new(),
            host_entity: None,
        }
    }

    pub fn session(&self) -> (r: &RoomSession)
        ensures
            *r == self@.session,
    {
        &self.session
    }

    pub fn ice_servers(&self) -> (r: &Vec<IceServerConfig>)
        ensures
            r@ == self@.servers,
    {
        &self.ice_servers
    }

    fn count(&self) -> (r: u32)
        ensures
            r == head_count(self@),
    {
        let sum: u128 = self.peers.len() as u128 + self.relayed.len() as u128;
        #[verifier::truncate]
        (sum as u32)
    }

    /// Takes up a report of the signaling service.
    pub fn on_signal(&mut self, ev: SignalingEvent, now_us: u64) -> (r: Vec<HostAction>)
        requires
            host_wf(old(self)@),
        ensures
            host_wf(final(self)@),
            exists|limiter: RelayRateLimiter|
                final(self)@ == #[trigger] after_signal(old(self)@, ev, limiter) && (
                ev matches SignalingEvent::RelayActive { max_rate, .. } ==> is_new_limiter(
                    limiter,
                    max_rate,
                    now_us,
                )),
            r@ == signal_actions(old(self)@, ev, final(self)@),
    {
        let ghost before = self@;
        let mut actions: Vec<HostAction> = Vec::new();
        let fresh = match &ev {
            SignalingEvent::RelayActive { max_rate, .. } => RelayRateLimiter::new(
                *max_rate,
                now_us,
            ),
            _ => RelayRateLimiter::with_default_rate(now_us),
        };
        let ghost event = ev;
        match ev {
            SignalingEvent::Open => {
                self.session = RoomSession::AwaitRegistered;
            },
            SignalingEvent::Registered { ice_servers, .. } => {
                self.ice_servers = ice_servers;
                self.session.enter_negotiating();
                actions.push(HostAction::Tell { event: RoomEvent::Connected });
            },
            SignalingEvent::PeerJoined { peer_id } => {
                actions.push(HostAction::OpenPeer { peer_id });
            },
            SignalingEvent::PeerLeft { peer_id } => {
                if self.peers.remove(&peer_id).is_some() {
                    actions.push(HostAction::ClosePeer { peer_id });
                }
                self.pending.remove(&peer_id);
                self.started_us.remove(&peer_id);
                self.relayed.remove(&peer_id);
                self.limiters.remove(&peer_id);
                self.requested.remove(&peer_id);
                actions.push(HostAction::Tell { event: RoomEvent::RemoteLeft { peer_id } });
                actions.push(HostAction::Tell { event: RoomEvent::PeerCount(self.count()) });
            },
            SignalingEvent::Answer { from, sdp } => {
                if self.peers.contains_key(&from) {
                    actions.push(HostAction::ApplyAnswer { peer_id: from, sdp });
                    if let Some(p) = self.pending.get(&from) {
                        let noted = PendingNegotiation {
                            offer_sent: p.offer_sent,
                            answer_received: true,
                        };
                        self.pending.insert(from, noted);
                    }
                    self.session.mark_answer_exchanged();
                }
            },
            SignalingEvent::Ice { from, candidate } => {
                if self.peers.contains_key(&from) {
                    actions.push(HostAction::AddIce { peer_id: from, candidate });
                }
            },
            SignalingEvent::Offer { .. } => {},
            SignalingEvent::RoomClosed { reason } => {
                self.session = RoomSession::Disconnected { reason: reason.clone() };
                actions.push(HostAction::Tell { event: RoomEvent::Disconnected { reason } });
            },
            SignalingEvent::ServerError { message } => {
                actions.push(HostAction::Tell { event: RoomEvent::SignalingError(message) });
            },
            SignalingEvent::SocketError { message } => {
                actions.push(HostAction::Tell { event: RoomEvent::SignalingError(message) });
            },
            SignalingEvent::Closed => {},
            SignalingEvent::RelayActive { peer_id, .. } => {
                self.requested.remove(&peer_id);
                if self.peers.remove(&peer_id).is_some() {
                    actions.push(HostAction::ClosePeer { peer_id });
                }
                self.pending.remove(&peer_id);
                self.started_us.remove(&peer_id);
                if self.relayed.insert(peer_id) {
                    self.limiters.insert(peer_id, fresh);
                    actions.push(HostAction::Tell { event: RoomEvent::PeerRelayed { peer_id } });
                    self.session.mark_dc_open();
                    actions.push(HostAction::Tell { event: RoomEvent::PeerCount(self.count()) });
                } else {
                    proof {
                        assert(before.relayed.insert(peer_id) =~= before.relayed);
                    }
                }
            },
            SignalingEvent::RelayClosed { peer_id, .. } => {
                self.relayed.remove(&peer_id);
                self.limiters.remove(&peer_id);
                self.requested.remove(&peer_id);
                actions.push(HostAction::Tell { event: RoomEvent::RemoteLeft { peer_id } });
                actions.push(HostAction::Tell { event: RoomEvent::PeerCount(self.count()) });
            },
            SignalingEvent::RelayBinary { sender_peer_id, payload } => {
                if self.relayed.contains(&sender_peer_id) {
                    actions.push(HostAction::Deliver { peer_id: sender_peer_id, bytes: payload });
                }
            },
        }
        proof {
            assert(self@ =~= after_signal(before, event, fresh));
            assert(actions@ =~= signal_actions(before, event, self@));
            law_signals_keep_the_state_consistent(before, event, fresh);
        }
        actions
    }

    /// A connection that was asked for has been opened, and its offer is under way.
    pub fn on_peer_opened(&mut self, peer_id: u32, now_us: u64)
        requires
            host_wf(old(self)@),
        ensures
            host_wf(final(self)@),
            final(self)@ == after_open(old(self)@, peer_id, now_us),
            final(self)@ == (HostView {
                peers: old(self)@.peers.insert(peer_id, PeerState::Negotiating),
                pending: old(self)@.pending.insert(
                    peer_id,
                    PendingNegotiation { offer_sent: false, answer_received: false },
                ),
                started: old(self)@.started.insert(peer_id, now_us),
                session: room::with_offer(old(self)@.session),
                ..old(self)@
            }),
    {
        self.peers.insert(peer_id, PeerState::Negotiating);
        self.pending.insert(
            peer_id,
            PendingNegotiation { offer_sent: false, answer_received: false },
        );
        self.started_us.insert(peer_id, now_us);
        self.session.mark_offer_exchanged();
        proof {
            assert(self@.pending.dom() =~= self@.peers.dom());
        }
    }

    /// Something happened on the connection to a player.
    pub fn on_peer_event(&mut self, peer_id: u32, ev: PeerEvent) -> (r: Vec<HostAction>)
        requires
            host_wf(old(self)@),
        ensures
            host_wf(final(self)@),
            final(self)@ == after_peer_event(old(self)@, peer_id, ev),
            r@ == peer_event_actions(old(self)@, peer_id, ev),
    {
        let ghost before = self@;
        let ghost event = ev;
        let mut actions: Vec<HostAction> = Vec::new();
        match ev {
            PeerEvent::OfferReady(sdp) => {
                actions.push(HostAction::SendOffer { peer_id, sdp });
                if let Some(p) = self.pending.get(&peer_id) {
                    let noted = PendingNegotiation {
                        offer_sent: true,
                        answer_received: p.answer_received,
                    };
                    self.pending.insert(peer_id, noted);
                }
            },
            PeerEvent::LocalIce(candidate) => {
                actions.push(HostAction::SendIce { peer_id, candidate });
            },
            PeerEvent::Message { bytes, .. } => {
                actions.push(HostAction::Deliver { peer_id, bytes });
            },
            PeerEvent::StateChanged(state) => {
                if state == PeerState::Connected {
                    self.session.mark_dc_open();
                    self.started_us.remove(&peer_id);
                    actions.push(HostAction::Tell { event: RoomEvent::PeerCount(self.count()) });
                } else if state == PeerState::Disconnected || state == PeerState::Failed {
                    if !self.requested.contains(&peer_id) && !self.relayed.contains(&peer_id) {
                        actions.push(HostAction::RequestRelay { peer_id });
                        self.requested.insert(peer_id);
                    }
                }
                if self.peers.contains_key(&peer_id) {
                    self.peers.insert(peer_id, state);
                }
            },
            PeerEvent::AnswerReady(_) => {},
            PeerEvent::RemoteDescApplied => {},
            PeerEvent::IceApplied => {},
            PeerEvent::NegotiationError(_) => {},
            PeerEvent::BufferFreed => {},
        }
        proof {
            assert(self@ =~= after_peer_event(before, peer_id, event));
            assert(actions@ =~= peer_event_actions(before, peer_id, event));
            law_peer_events_keep_the_state_consistent(before, peer_id, event);
        }
        actions
    }

    /// Asks for a relay for every player whose negotiation has taken too long.
    pub fn on_tick(&mut self, now_us: u64) -> (r: Vec<HostAction>)
        requires
            host_wf(old(self)@),
        ensures
            host_wf(final(self)@),
            final(self)@ == (HostView {
                requested: final(self)@.requested,
                ..old(self)@
            }),
            forall|p: u32|
                final(self)@.requested.contains(p) <==> old(self)@.requested.contains(p)
                    || is_overdue(old(self)@, p, now_us),
            r@.no_duplicates(),
            forall|a: HostAction|
                r@.contains(a) <==> (a matches HostAction::RequestRelay { peer_id } && is_overdue(
                    old(self)@,
                    peer_id,
                    now_us,
                )),
    {
        let ghost before = self@;
        let ids = keys_of(&self.started_us);
        let mut actions: Vec<HostAction> = Vec::new();
        let mut i: usize = 0;
        while i < ids.len()
            invariant
                i <= ids@.len(),
                host_wf(before),
                crate::maps::lists_set(ids@, before.started.dom()),
                self@ == (HostView { requested: self@.requested, ..before }),
                forall|p: u32|
                    self@.requested.contains(p) <==> before.requested.contains(p) || (
                    ids@.take(i as int).contains(p) && is_overdue(before, p, now_us)),
                actions@.no_duplicates(),
                forall|a: HostAction|
                    actions@.contains(a) <==> (a matches HostAction::RequestRelay { peer_id }
                        && ids@.take(i as int).contains(peer_id) && is_overdue(
                        before,
                        peer_id,
                        now_us,
                    )),
            decreases ids@.len() - i,
        {
            let p: u32 = ids[i];
            let ghost seen = ids@.take(i as int);
            let ghost earlier = actions@;
            let ghost asked = self@.requested;
            proof {
                assert(ids@.contains(p));
                assert(!seen.contains(p)) by {
                    if seen.contains(p) {
                        let j = choose|j: int| 0 <= j < seen.len() && seen[j] == p;
                        assert(ids@[j] != ids@[i as int]);
                    }
                }
                assert(ids@.take(i + 1) == seen.push(p));
                assert forall|q: u32| #[trigger] seen.push(p).contains(q) <==> seen.contains(q) || q
                    == p by {
                    if seen.contains(q) {
                        let j = choose|j: int| 0 <= j < seen.len() && seen[j] == q;
                        assert(seen.push(p)[j] == q);
                    }
                    assert(seen.push(p)[seen.len() as int] == p);
                }
            }
            let late = match self.started_us.get(&p) {
                Some(start) => now_us > *start && now_us - *start > NEGOTIATION_TIMEOUT_US,
                None => false,
            };
            let standing = match self.peers.get(&p) {
                Some(state) => *state != PeerState::Connected,
                None => false,
            };
            let free = !self.requested.contains(&p) && !self.relayed.contains(&p);
            assert(late && standing && free <==> is_overdue(before, p, now_us));
            if late && standing && free {
                let action = HostAction::RequestRelay { peer_id: p };
                actions.push(action);
                self.requested.insert(p);
                proof {
                    assert forall|a: HostAction| #[trigger] actions@.contains(a)
                        <==> earlier.contains(a) || a == action by {
                        if earlier.contains(a) {
                            let j = choose|j: int| 0 <= j < earlier.len() && earlier[j] == a;
                            assert(actions@[j] == a);
                        }
                        assert(actions@[earlier.len() as int] == action);
                    }
                    assert(!earlier.contains(action));
                }
            }
            i += 1;
        }
        proof {
            assert(ids@.take(ids@.len() as int) == ids@);
            assert(host_wf(self@)) by {
                assert(self@.requested.disjoint(self@.relayed));
            }
        }
        actions
    }

    /// Decides whether a message may go out to the players it is for.
    ///
    /// It waits as a whole where one of them cannot take it. A message through a relay is paid
    /// for at once.
    pub fn clear_to_send(
        &mut self,
        targets: &Vec<u32>,
        channel: ChannelKind,
        paused: &HashSet<u32>,
        now_us: u64,
    ) -> (r: Admission)
        requires
            host_wf(old(self)@),
            targets@.no_duplicates(),
        ensures
            host_wf(final(self)@),
            final(self)@ == (HostView { limiters: final(self)@.limiters, ..old(self)@ }),
            r is Hold <==> exists|k: int|
                0 <= k < targets@.len() && (is_clogged(
                    old(self)@,
                    #[trigger] targets@[k],
                    channel,
                    paused@,
                ) || is_throttled(old(self)@, targets@[k], now_us)),
            r is Hold ==> final(self)@ == old(self)@,
            r matches Admission::Send { direct, relayed } ==> {
                &&& direct@ == targets@.filter(|p: u32| !old(self)@.relayed.contains(p))
                &&& relayed@ == targets@.filter(|p: u32| old(self)@.relayed.contains(p))
                &&& forall|p: u32| #[trigger]
                    final(self)@.limiters.contains_key(p) ==> if targets@.contains(p) {
                        is_charged(final(self)@.limiters[p], old(self)@.limiters[p], now_us)
                    } else {
                        final(self)@.limiters[p] == old(self)@.limiters[p]
                    }
            },
    {
        let ghost before = self@;
        let mut i: usize = 0;
        while i < targets.len()
            invariant
                i <= targets@.len(),
                self@ == before,
                before == old(self)@,
                host_wf(before),
                forall|k: int|
                    0 <= k < i ==> !is_clogged(before, #[trigger] targets@[k], channel, paused@)
                        && !is_throttled(before, targets@[k], now_us),
            decreases targets@.len() - i,
        {
            let p: u32 = targets[i];
            if self.relayed.contains(&p) {
                let allowed = match self.limiters.get(&p) {
                    Some(limiter) => {
                        let mut copy: RelayRateLimiter = *limiter;
                        copy.has_token(now_us)
                    },
                    None => true,
                };
                assert(before.limiters.contains_key(p));
                if !allowed {
                    assert(is_throttled(before, targets@[i as int], now_us));
                    return Admission::Hold;
                }
            } else if channel == ChannelKind::Reliable && self.peers.contains_key(&p)
                && paused.contains(&p) {
                assert(is_clogged(before, targets@[i as int], channel, paused@));
                return Admission::Hold;
            }
            i += 1;
        }
        let mut direct: Vec<u32> = Vec::new();
        let mut relayed: Vec<u32> = Vec::new();
        let ghost is_direct = |p: u32| !before.relayed.contains(p);
        let ghost is_relayed = |p: u32| before.relayed.contains(p);
        let mut j: usize = 0;
        proof {
            assert(targets@.take(0).filter(is_direct) =~= Seq::<u32>::empty());
            assert(targets@.take(0).filter(is_relayed) =~= Seq::<u32>::empty());
        }
        while j < targets.len()
            invariant
                j <= targets@.len(),
                targets@.no_duplicates(),
                host_wf(before),
                host_wf(self@),
                self@ == (HostView { limiters: self@.limiters, ..before }),
                is_direct == (|p: u32| !before.relayed.contains(p)),
                is_relayed == (|p: u32| before.relayed.contains(p)),
                forall|k: int|
                    0 <= k < targets@.len() ==> !is_throttled(
                        before,
                        #[trigger] targets@[k],
                        now_us,
                    ),
                direct@ == targets@.take(j as int).filter(is_direct),
                relayed@ == targets@.take(j as int).filter(is_relayed),
                forall|p: u32| #[trigger]
                    self@.limiters.contains_key(p) ==> if targets@.take(j as int).contains(p) {
                        is_charged(self@.limiters[p], before.limiters[p], now_us)
                    } else {
                        self@.limiters[p] == before.limiters[p]
                    },
            decreases targets@.len() - j,
        {
            let p: u32 = targets[j];
            let ghost seen = targets@.take(j as int);
            proof {
                let longer = targets@.take(j + 1);
                assert(longer.drop_last() == seen);
                assert(longer.last() == p);
                reveal(Seq::filter);
                assert(!seen.contains(p)) by {
                    if seen.contains(p) {
                        let k = choose|k: int| 0 <= k < seen.len() && seen[k] == p;
                        assert(targets@[k] != targets@[j as int]);
                    }
                }
                assert(longer == seen.push(p));
                assert forall|q: u32| #[trigger] longer.contains(q) <==> seen.contains(q) || q == p by {
                    if seen.contains(q) {
                        let k = choose|k: int| 0 <= k < seen.len() && seen[k] == q;
                        assert(longer[k] == q);
                    }
                    assert(longer[seen.len() as int] == p);
                }
                assert(!is_throttled(before, targets@[j as int], now_us));
            }
            if self.relayed.contains(&p) {
                relayed.push(p);
                proof {
                    assert(self@.limiters.contains_key(p));
                }
                let charged = match self.limiters.get(&p) {
                    Some(limiter) => {
                        let mut copy: RelayRateLimiter = *limiter;
                        copy.consume_token(now_us);
                        Some(copy)
                    },
                    None => None,
                };
                if let Some(limiter) = charged {
                    self.limiters.insert(p, limiter);
                }
                proof {
                    assert(self@.limiters.dom() =~= before.limiters.dom());
                    assert(host_wf(self@));
                }
            } else {
                direct.push(p);
                proof {
                    assert(!self@.limiters.contains_key(p));
                }
            }
            j += 1;
        }
        proof {
            assert(targets@.take(targets@.len() as int) == targets@);
        }
        Admission::Send { direct, relayed }
    }

    /// Notes which player's entity a connection stands for.
    pub fn host_register_peer(&mut self, peer_id: u32, entity_id: EntityId)
        ensures
            final(self)@ == (HostView {
                entities: old(self)@.entities.insert(peer_id, entity_id),
                ..old(self)@
            }),
    {
        self.entities.insert(peer_id, entity_id);
    }

    /// Forgets which player's entity a connection stood for, and returns it.
    pub fn host_unregister_peer(&mut self, peer_id: u32) -> (r: Option<EntityId>)
        ensures
            final(self)@ == (HostView {
                entities: old(self)@.entities.remove(peer_id),
                ..old(self)@
            }),
            r == (if old(self)@.entities.contains_key(peer_id) {
                Some(old(self)@.entities[peer_id])
            } else {
                None
            }),
    {
        self.entities.remove(&peer_id)
    }

    pub fn host_peer_entity(&self, peer_id: u32) -> (r: Option<EntityId>)
        ensures
            r == (if self@.entities.contains_key(peer_id) {
                Some(self@.entities[peer_id])
            } else {
                None
            }),
    {
        match self.entities.get(&peer_id) {
            Some(e) => Some(*e),
            None => None,
        }
    }

    /// The connections and the entities they stand for.
    pub fn peer_to_entity(&self) -> (r: &HashMap<u32, EntityId>)
        ensures
            r@ == self@.entities,
    {
        &self.entities
    }

    pub fn host_set_self_entity(&mut self, eid: EntityId)
        ensures
            final(self)@ == (HostView { host: Some(eid), ..old(self)@ }),
    {
        self.host_entity = Some(eid);
    }

    /// Where a message for `recipient` goes.
    pub fn route(&self, msg: &crate::protocol::OutboundMessage) -> (r: RoutingPlan)
        ensures
            crate::relay::delivers(r, msg.recipient, self@.entities, self@.host),
    {
        crate::relay::plan_route(msg, &self.entities, self.host_entity)
    }
}

/// What the host does with a message of a player.
#[derive(Clone, Debug)]
pub enum HostCommand {
    /// Let the player into the world.
    AddPlayer { display_name: String },
    /// The player speaks another version and is not let in.
    TurnAway { version: u32 },
    /// Hand the message to the world.
    Handle { entity_id: EntityId, msg: ClientMessage },
    /// The player has not asked to join yet.
    Ignore,
}

/// What the host does with a message of a player, given the player's number in the world.
pub open spec fn command_for(entity_id: Option<EntityId>, msg: ClientMessage) -> HostCommand {
    match msg {
        ClientMessage::Hello { display_name, version } => if version == PROTOCOL_VERSION {
            HostCommand::AddPlayer { display_name }
        } else {
            HostCommand::TurnAway { version }
        },
        _ => match entity_id {
            Some(entity_id) => HostCommand::Handle { entity_id, msg },
            None => HostCommand::Ignore,
        },
    }
}

/// Nothing that a player says before being let in reaches the world.
pub proof fn law_strangers_do_not_act(msg: ClientMessage)
    ensures
        !(command_for(None, msg) is Handle),
{
}

/// What the host does with a message of a player.
pub fn host_command(entity_id: Option<EntityId>, msg: ClientMessage) -> (r: HostCommand)
    ensures
        r == command_for(entity_id, msg),
{
    match msg {
        ClientMessage::Hello { display_name, version } => if version == PROTOCOL_VERSION {
            HostCommand::AddPlayer { display_name }
        } else {
            HostCommand::TurnAway { version }
        },
        other => match entity_id {
            Some(entity_id) => HostCommand::Handle { entity_id, msg: other },
            None => HostCommand::Ignore,
        },
    }
}

/// An answer and a candidate of a player with an open connection are applied to that connection,
/// unchanged, and nothing else is done. Those of anyone else are let go.
pub proof fn law_answers_and_candidates_are_applied(
    v: HostView,
    limiter: RelayRateLimiter,
    from: u32,
    sdp: String,
    candidate: String,
)
    ensures
        ({
            let answer = SignalingEvent::Answer { from, sdp };
            let ice = SignalingEvent::Ice { from, candidate };
            let a = after_signal(v, answer, limiter);
            let b = after_signal(v, ice, limiter);
            let on_answer = signal_actions(v, answer, a);
            let on_ice = signal_actions(v, ice, b);
            &&& b == v
            &&& if v.peers.contains_key(from) {
                &&& on_answer == seq![HostAction::ApplyAnswer { peer_id: from, sdp }]
                &&& on_ice == seq![HostAction::AddIce { peer_id: from, candidate }]
                &&& a.pending[from].answer_received
                &&& a.pending[from].offer_sent == v.pending[from].offer_sent
                &&& a.peers == v.peers
                &&& a.session == room::with_answer(v.session)
            } else {
                &&& on_answer.len() == 0
                &&& on_ice.len() == 0
                &&& a == v
            }
        }),
{
}

/// A player who joins gets a connection, and nothing else happens before it is open. Once it is, it
/// counts as being negotiated from then on, the first offer being under way.
pub proof fn law_a_joining_player_is_connected_to(
    v: HostView,
    limiter: RelayRateLimiter,
    peer_id: u32,
    now: u64,
    other: u32,
)
    ensures
        ({
            let ev = SignalingEvent::PeerJoined { peer_id };
            let a = after_signal(v, ev, limiter);
            let b = after_open(v, peer_id, now);
            &&& a == v
            &&& signal_actions(v, ev, a) == seq![HostAction::OpenPeer { peer_id }]
            &&& b.peers.contains_key(peer_id)
            &&& b.peers[peer_id] == PeerState::Negotiating
            &&& !b.pending[peer_id].offer_sent
            &&& !b.pending[peer_id].answer_received
            &&& b.started.contains_key(peer_id)
            &&& b.started[peer_id] == now
            &&& b.session == room::with_offer(v.session)
            &&& other != peer_id ==> b.peers.contains_key(other) == v.peers.contains_key(other)
            &&& other != peer_id && v.peers.contains_key(other) ==> b.peers[other]
                == v.peers[other]
            &&& b.relayed == v.relayed
            &&& b.requested == v.requested
        }),
{
}

/// When a player leaves, an open connection to the player is closed first; then it is told who left
/// and how many players are left. The others stay connected.
pub proof fn law_a_leaving_player_is_told(
    v: HostView,
    limiter: RelayRateLimiter,
    peer_id: u32,
    other: u32,
)
    requires
        host_wf(v),
    ensures
        ({
            let ev = SignalingEvent::PeerLeft { peer_id };
            let a = after_signal(v, ev, limiter);
            let r = signal_actions(v, ev, a);
            &&& r.len() >= 2
            &&& r[r.len() - 2] == HostAction::Tell { event: RoomEvent::RemoteLeft { peer_id } }
            &&& r[r.len() - 1] == HostAction::Tell {
                event: RoomEvent::PeerCount((a.peers.dom().len() + a.relayed.len()) as u32),
            }
            &&& v.peers.contains_key(peer_id) ==> r.len() == 3 && r[0] == HostAction::ClosePeer {
                peer_id,
            }
            &&& !v.peers.contains_key(peer_id) ==> r.len() == 2
            &&& other != peer_id ==> a.peers.contains_key(other) == v.peers.contains_key(other)
            &&& other != peer_id && v.peers.contains_key(other) ==> a.peers[other]
                == v.peers[other] && a.pending[other] == v.pending[other]
            &&& other != peer_id ==> a.relayed.contains(other) == v.relayed.contains(other)
            &&& a.session == v.session
            &&& a.entities == v.entities
        }),
{
}

/// Once the service knows the host, the room is open: that is told, the servers named are kept, and
/// negotiations can begin.
pub proof fn law_registration_opens_the_room(
    v: HostView,
    limiter: RelayRateLimiter,
    peer_id: u32,
    existing_peers: Vec<u32>,
    ice_servers: Vec<IceServerConfig>,
)
    ensures
        ({
            let ev = SignalingEvent::Registered { peer_id, existing_peers, ice_servers };
            let a = after_signal(v, ev, limiter);
            &&& signal_actions(v, ev, a) == seq![HostAction::Tell { event: RoomEvent::Connected }]
            &&& a.servers == ice_servers@
            &&& a.session is Negotiating
            &&& a.peers == v.peers
            &&& a.relayed == v.relayed
            &&& after_signal(v, SignalingEvent::Open, limiter).session
                == RoomSession::AwaitRegistered
            &&& signal_actions(v, SignalingEvent::Open, v).len() == 0
        }),
{
}

/// A player whose messages are relayed from now on loses the direct connection, and it is told that
/// the messages are relayed and how many players there are. Asking again changes nothing and tells
/// nothing.
pub proof fn law_a_relay_takes_over(
    v: HostView,
    limiter: RelayRateLimiter,
    peer_id: u32,
    max_rate: u32,
)
    ensures
        ({
            let ev = SignalingEvent::RelayActive { peer_id, max_rate };
            let a = after_signal(v, ev, limiter);
            let r = signal_actions(v, ev, a);
            &&& v.peers.contains_key(peer_id) ==> r.len() > 0 && r[0] == HostAction::ClosePeer {
                peer_id,
            }
            &&& !v.relayed.contains(peer_id) ==> {
                &&& r.len() >= 2
                &&& r[r.len() - 2] == HostAction::Tell {
                    event: RoomEvent::PeerRelayed { peer_id },
                }
                &&& r[r.len() - 1] == HostAction::Tell {
                    event: RoomEvent::PeerCount((a.peers.dom().len() + a.relayed.len()) as u32),
                }
                &&& a.limiters[peer_id] == limiter
                &&& a.session == room::with_channel(v.session)
            }
            &&& v.relayed.contains(peer_id) && !v.peers.contains_key(peer_id) ==> r.len() == 0
            &&& r.len() == (if v.peers.contains_key(peer_id) {
                1int
            } else {
                0
            }) + (if v.relayed.contains(peer_id) {
                0int
            } else {
                2
            })
            &&& a.relayed == v.relayed.insert(peer_id)
            &&& after_signal(a, ev, limiter) == a
            &&& signal_actions(a, ev, a).len() == 0
        }),
{
    let ev = SignalingEvent::RelayActive { peer_id, max_rate };
    let a = after_signal(v, ev, limiter);
    assert(a.relayed =~= v.relayed.insert(peer_id));
    assert(after_signal(a, ev, limiter) =~= a);
}

/// When a relay is closed the player is gone: that is told, and how many are left.
pub proof fn law_a_closed_relay_is_told(
    v: HostView,
    limiter: RelayRateLimiter,
    peer_id: u32,
    reason: String,
    other: u32,
)
    ensures
        ({
            let ev = SignalingEvent::RelayClosed { peer_id, reason };
            let a = after_signal(v, ev, limiter);
            &&& signal_actions(v, ev, a) == seq![
                HostAction::Tell { event: RoomEvent::RemoteLeft { peer_id } },
                HostAction::Tell {
                    event: RoomEvent::PeerCount((a.peers.dom().len() + a.relayed.len()) as u32),
                },
            ]
            &&& !a.relayed.contains(peer_id)
            &&& !a.limiters.contains_key(peer_id)
            &&& !a.requested.contains(peer_id)
            &&& other != peer_id ==> a.relayed.contains(other) == v.relayed.contains(other)
            &&& a.peers == v.peers
        }),
{
}

/// Relayed bytes are delivered, unchanged and under the sender's number, exactly if the sender is
/// relayed; bytes that come in directly are always delivered.
pub proof fn law_messages_are_delivered(
    v: HostView,
    sender: u32,
    payload: Vec<u8>,
    channel: ChannelKind,
    limiter: RelayRateLimiter,
)
    ensures
        ({
            let ev = SignalingEvent::RelayBinary { sender_peer_id: sender, payload };
            let deliver = seq![HostAction::Deliver { peer_id: sender, bytes: payload }];
            let relayed = signal_actions(v, ev, after_signal(v, ev, limiter));
            let direct = PeerEvent::Message { channel, bytes: payload };
            &&& v.relayed.contains(sender) ==> relayed == deliver
            &&& !v.relayed.contains(sender) ==> relayed.len() == 0
            &&& after_signal(v, ev, limiter) == v
            &&& peer_event_actions(v, sender, direct) == deliver
            &&& after_peer_event(v, sender, direct) == v
        }),
{
}

/// Trouble with the signaling service is told in its own words, and a closed room ends the stay
/// with the reason given.
pub proof fn law_trouble_is_told(v: HostView, limiter: RelayRateLimiter, words: String)
    ensures
        ({
            let server = SignalingEvent::ServerError { message: words };
            let socket = SignalingEvent::SocketError { message: words };
            let closed = SignalingEvent::RoomClosed { reason: words };
            let told = seq![HostAction::Tell { event: RoomEvent::SignalingError(words) }];
            &&& signal_actions(v, server, after_signal(v, server, limiter)) == told
            &&& signal_actions(v, socket, after_signal(v, socket, limiter)) == told
            &&& after_signal(v, server, limiter) == v
            &&& after_signal(v, socket, limiter) == v
            &&& signal_actions(v, closed, after_signal(v, closed, limiter)) == seq![
                HostAction::Tell { event: RoomEvent::Disconnected { reason: words } },
            ]
            &&& after_signal(v, closed, limiter).session == (RoomSession::Disconnected {
                reason: words,
            })
            &&& after_signal(v, closed, limiter).peers == v.peers
        }),
{
}

/// The offer and the candidates of a connection are sent to the player whose connection it is, as
/// they are.
pub proof fn law_offers_are_sent(v: HostView, p: u32, sdp: String, candidate: String)
    ensures
        peer_event_actions(v, p, PeerEvent::OfferReady(sdp)) == seq![
            HostAction::SendOffer { peer_id: p, sdp },
        ],
        peer_event_actions(v, p, PeerEvent::LocalIce(candidate)) == seq![
            HostAction::SendIce { peer_id: p, candidate },
        ],
        v.pending.contains_key(p) ==> after_peer_event(
            v,
            p,
            PeerEvent::OfferReady(sdp),
        ).pending[p].offer_sent,
        after_peer_event(v, p, PeerEvent::LocalIce(candidate)) == v,
{
}

/// A connection that comes up is no longer waited for, and it is told how many players there are. A
/// connection that goes down makes the host ask for a relay, once. Either way its state is noted,
/// and that of no other.
pub proof fn law_connections_come_up_and_go_down(v: HostView, p: u32, s: PeerState, other: u32)
    requires
        v.peers.contains_key(p),
    ensures
        ({
            let ev = PeerEvent::StateChanged(s);
            let a = after_peer_event(v, p, ev);
            let r = peer_event_actions(v, p, ev);
            &&& a.peers[p] == s
            &&& a.peers.dom() == v.peers.dom()
            &&& other != p && v.peers.contains_key(other) ==> a.peers[other] == v.peers[other]
            &&& s == PeerState::Connected ==> {
                &&& r == seq![
                    HostAction::Tell {
                        event: RoomEvent::PeerCount((v.peers.dom().len() + v.relayed.len()) as u32),
                    },
                ]
                &&& !a.started.contains_key(p)
                &&& a.session == room::with_channel(v.session)
            }
            &&& s == PeerState::Failed || s == PeerState::Disconnected ==> {
                &&& !v.requested.contains(p) && !v.relayed.contains(p) ==> r == seq![
                    HostAction::RequestRelay { peer_id: p },
                ]
                &&& v.requested.contains(p) || v.relayed.contains(p) ==> r.len() == 0
                &&& v.relayed.contains(p) || a.requested.contains(p)
            }
            &&& s == PeerState::New || s == PeerState::Negotiating ==> r.len() == 0
            &&& other != p ==> a.requested.contains(other) == v.requested.contains(other)
            &&& other != p ==> a.started.contains_key(other) == v.started.contains_key(other)
        }),
{
    assert(after_peer_event(v, p, PeerEvent::StateChanged(s)).peers.dom() =~= v.peers.dom());
}

/// A connection is given up for a relay exactly when it was opened more than fifteen seconds ago,
/// has not come up since, and no relay was asked for.
pub proof fn law_slow_connections_are_relayed(v: HostView, p: u32, opened: u64, now: u64)
    requires
        opened <= now,
    ensures
        ({
            let a = after_open(v, p, opened);
            &&& is_overdue(a, p, now) <==> now - opened > 15_000_000 && !v.requested.contains(p)
                && !v.relayed.contains(p)
            &&& !is_overdue(
                after_peer_event(a, p, PeerEvent::StateChanged(PeerState::Connected)),
                p,
                now,
            )
            &&& !is_overdue(without_peer(a, p), p, now)
        }),
{
}

/// A message waits for a target that is directly connected only on the reliable channel, while that
/// connection has too much waiting; it waits for a relayed target only while the relay takes none.
pub proof fn law_messages_wait_for_clogged_targets(
    v: HostView,
    p: u32,
    channel: ChannelKind,
    paused: Set<u32>,
    now: u64,
)
    ensures
        is_clogged(v, p, channel, paused) ==> channel == ChannelKind::Reliable && paused.contains(p)
            && v.peers.contains_key(p) && !v.relayed.contains(p),
        channel == ChannelKind::Unreliable ==> !is_clogged(v, p, channel, paused),
        channel == ChannelKind::Reliable && paused.contains(p) && v.peers.contains_key(p)
            && !v.relayed.contains(p) ==> is_clogged(v, p, channel, paused),
        is_throttled(v, p, now) <==> v.relayed.contains(p) && v.limiters[p].stock_at(now)
            < 5_000_000,
        !(is_clogged(v, p, channel, paused) && is_throttled(v, p, now)),
{
}

/// A player is let in exactly with the version that the host speaks, under the name given; with any
/// other version it is turned away and told which it has. What a player who is in says is handed on
/// unchanged, in the player's name.
pub proof fn law_players_are_let_in_by_version(
    entity_id: Option<EntityId>,
    display_name: String,
    version: u32,
    msg: ClientMessage,
    me: EntityId,
)
    ensures
        ({
            let hello = command_for(entity_id, ClientMessage::Hello { display_name, version });
            &&& version == 10 ==> hello == (HostCommand::AddPlayer { display_name })
            &&& version != 10 ==> hello == (HostCommand::TurnAway { version })
            &&& !(msg is Hello) ==> command_for(Some(me), msg) == (HostCommand::Handle {
                entity_id: me,
                msg,
            })
            &&& !(msg is Hello) ==> command_for(None, msg) == HostCommand::Ignore
        }),
{
}

/// A relay begins with a full stock of messages and with the rate that its limit allows, and every
/// message takes one share of what has gathered until then.
pub proof fn law_messages_use_up_the_stock(
    limiter: RelayRateLimiter,
    after: RelayRateLimiter,
    max_rate: u32,
    start: u64,
    now: u64,
)
    requires
        is_new_limiter(limiter, max_rate, start),
        is_charged(after, limiter, now),
    ensures
        limiter.stock() == limiter.capacity(),
        limiter.refill() == crate::relay::safe_refill(max_rate),
        limiter.filled_at() == start,
        after.stock() + crate::relay::TOKEN == limiter.stock_at(now),
        after.refill() == limiter.refill(),
        after.filled_at() >= limiter.filled_at(),
        start <= now ==> after.filled_at() == now,
        limiter.wf() && after.wf(),
{
}

} // verus!
