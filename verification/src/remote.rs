//! A joining player's side of a room: what it does when the signaling service or the connection
//! to the host reports something, and what becomes of its messages before it is connected.
use std::collections::VecDeque;

use vstd::prelude::*;

use crate::peer::{PeerEvent, PeerState};
use crate::protocol::{ClientMessage, RoomEvent, ServerMessage};
use crate::room;
use crate::room::RoomSession;
use crate::signaling::{IceServerConfig, SignalingEvent};
use crate::transport;
use crate::transport::{channel_for_client_message, ChannelKind};

verus! {

/// What the player's caller has to do.
#[derive(Clone, Debug)]
pub enum RemoteAction {
    /// Open a connection to the host; then report whether that worked.
    OpenHost { peer_id: u32 },
    CloseHost,
    AcceptOffer { sdp: String },
    AddIce { candidate: String },
    SendAnswer { peer_id: u32, sdp: String },
    SendIce { peer_id: u32, candidate: String },
    /// Send a message to the host through the signaling service.
    SendRelayed { peer_id: u32, msg: ClientMessage },
    /// Send a message to the host on a channel of the connection.
    SendDirect { channel: ChannelKind, msg: ClientMessage },
    /// Decode a message of the host and put it with those received.
    Deliver { bytes: Vec<u8> },
    Tell { event: RoomEvent },
}

/// Which channels of the connection to the host are open.
#[derive(Copy, Clone, Debug, PartialEq, Eq, Structural)]
pub struct OpenChannels {
    pub reliable: bool,
    pub unreliable: bool,
}

/// What a joining player keeps of the room.
pub struct RemoteState {
    session: RoomSession,
    ice_servers: Vec<IceServerConfig>,
    host_open: bool,
    host_peer_id: Option<u32>,
    relayed_host: Option<u32>,
    outbox: VecDeque<ClientMessage>,
    inbox: VecDeque<ServerMessage>,
}

/// The player's state as mathematics.
#[verifier::ext_equal]
pub struct RemoteView {
    pub session: RoomSession,
    pub servers: Seq<IceServerConfig>,
    /// Whether there is a connection to the host, standing or not.
    pub host_open: bool,
    pub host: Option<u32>,
    /// The host, once messages are relayed.
    pub relayed: Option<u32>,
    /// Messages that wait for a connection.
    pub outbox: Seq<ClientMessage>,
    /// Messages of the host that have not been taken yet.
    pub inbox: Seq<ServerMessage>,
}

pub open spec fn tell(event: RoomEvent) -> RemoteAction {
    RemoteAction::Tell { event }
}

pub open spec fn is_channel_open(open: OpenChannels, channel: ChannelKind) -> bool {
    match channel {
        ChannelKind::Reliable => open.reliable,
        ChannelKind::Unreliable => open.unreliable,
    }
}

pub open spec fn channel_of(msg: ClientMessage) -> ChannelKind {
    transport::channel_of(transport::may_be_lost_by_client(msg))
}

/// Whether a message can go out on the connection.
pub open spec fn can_go(open: OpenChannels, msg: ClientMessage) -> bool {
    is_channel_open(open, channel_of(msg))
}

/// The messages that can go out on the connection, in their order.
pub open spec fn going(open: OpenChannels, msgs: Seq<ClientMessage>) -> Seq<ClientMessage>
    decreases msgs.len(),
{
    if msgs.len() == 0 {
        msgs
    } else {
        let rest = going(open, msgs.drop_last());
        if can_go(open, msgs.last()) {
            rest.push(msgs.last())
        } else {
            rest
        }
    }
}

/// The messages that cannot go out yet, in their order.
pub open spec fn staying(open: OpenChannels, msgs: Seq<ClientMessage>) -> Seq<ClientMessage>
    decreases msgs.len(),
{
    if msgs.len() == 0 {
        msgs
    } else {
        let rest = staying(open, msgs.drop_last());
        if can_go(open, msgs.last()) {
            rest
        } else {
            rest.push(msgs.last())
        }
    }
}

/// Messages sent through the relay.
pub open spec fn relayed_sends(peer_id: u32, msgs: Seq<ClientMessage>) -> Seq<RemoteAction> {
    Seq::new(msgs.len(), |i: int| RemoteAction::SendRelayed { peer_id, msg: msgs[i] })
}

/// Messages sent on the connection, each on its channel.
pub open spec fn direct_sends(msgs: Seq<ClientMessage>) -> Seq<RemoteAction> {
    Seq::new(
        msgs.len(),
        |i: int| RemoteAction::SendDirect { channel: channel_of(msgs[i]), msg: msgs[i] },
    )
}

/// Whether a report concerns the host.
pub open spec fn is_from_host(v: RemoteView, peer_id: u32) -> bool {
    v.host == Some(peer_id)
}

/// Whether a session has ended for a reason given in words.
pub open spec fn ended_with(s: RoomSession, words: Seq<char>) -> bool {
    s matches RoomSession::Disconnected { reason } && reason@ == words
}

/// Whether the room was left for a reason given in words.
pub open spec fn tells_end(a: RemoteAction, words: Seq<char>) -> bool {
    a matches RemoteAction::Tell { event } && (event matches RoomEvent::Disconnected { reason }
        && reason@ == words)
}

/// The state after a report of the signaling service, but for the departure of the host.
pub open spec fn after_signal(v: RemoteView, ev: SignalingEvent) -> RemoteView {
    match ev {
        SignalingEvent::Open => RemoteView { session: RoomSession::AwaitRegistered, ..v },
        SignalingEvent::Registered { existing_peers, ice_servers, .. } => if existing_peers@.len()
            > 0 {
            RemoteView { servers: ice_servers@, host: Some(existing_peers@[0]), ..v }
        } else {
            RemoteView { servers: ice_servers@, session: room::negotiating(v.session), ..v }
        },
        SignalingEvent::Offer { from, .. } => if is_from_host(v, from) && v.host_open {
            RemoteView { session: room::with_offer(v.session), ..v }
        } else {
            v
        },
        SignalingEvent::RoomClosed { reason } => RemoteView {
            session: RoomSession::Disconnected { reason },
            ..v
        },
        SignalingEvent::RelayActive { peer_id, .. } => if is_from_host(v, peer_id)
            && v.relayed is None {
            RemoteView {
                host_open: false,
                relayed: Some(peer_id),
                session: RoomSession::Connected,
                outbox: Seq::empty(),
                ..v
            }
        } else {
            v
        },
        SignalingEvent::RelayClosed { peer_id, reason } => if is_from_host(v, peer_id) {
            RemoteView { relayed: None, session: RoomSession::Disconnected { reason }, ..v }
        } else {
            v
        },
        _ => v,
    }
}

/// What the player wants done after a report of the signaling service, but for the departure of
/// the host.
pub open spec fn signal_actions(v: RemoteView, ev: SignalingEvent) -> Seq<RemoteAction> {
    match ev {
        SignalingEvent::Registered { existing_peers, .. } => if existing_peers@.len() > 0 {
            seq![RemoteAction::OpenHost { peer_id: existing_peers@[0] }]
        } else {
            Seq::empty()
        },
        SignalingEvent::Offer { from, sdp } => if is_from_host(v, from) && v.host_open {
            seq![RemoteAction::AcceptOffer { sdp }]
        } else {
            Seq::empty()
        },
        SignalingEvent::Ice { from, candidate } => if is_from_host(v, from) && v.host_open {
            seq![RemoteAction::AddIce { candidate }]
        } else {
            Seq::empty()
        },
        SignalingEvent::RoomClosed { reason } => seq![tell(RoomEvent::Disconnected { reason })],
        SignalingEvent::ServerError { message } => seq![tell(RoomEvent::SignalingError(message))],
        SignalingEvent::SocketError { message } => seq![tell(RoomEvent::SignalingError(message))],
        SignalingEvent::RelayActive { peer_id, .. } => if is_from_host(v, peer_id)
            && v.relayed is None {
            (if v.host_open {
                seq![RemoteAction::CloseHost]
            } else {
                Seq::empty()
            }) + seq![tell(RoomEvent::Connected), tell(RoomEvent::PeerRelayed { peer_id })]
                + relayed_sends(peer_id, v.outbox)
        } else {
            Seq::empty()
        },
        SignalingEvent::RelayClosed { peer_id, reason } => if is_from_host(v, peer_id) {
            seq![tell(RoomEvent::Disconnected { reason })]
        } else {
            Seq::empty()
        },
        SignalingEvent::RelayBinary { sender_peer_id, payload } => if is_from_host(
            v,
            sender_peer_id,
        ) && v.relayed is Some {
            seq![RemoteAction::Deliver { bytes: payload }]
        } else {
            Seq::empty()
        },
        _ => Seq::empty(),
    }
}

/// The state after something happened on the connection to the host.
pub open spec fn after_peer_event(v: RemoteView, ev: PeerEvent, open: OpenChannels) -> RemoteView {
    if v.relayed is Some || !v.host_open {
        v
    } else {
        match ev {
            PeerEvent::AnswerReady(_) => if v.host is Some {
                RemoteView { session: room::with_answer(v.session), ..v }
            } else {
                v
            },
            PeerEvent::StateChanged(s) => if s == PeerState::Connected {
                RemoteView {
                    session: RoomSession::Connected,
                    outbox: staying(open, v.outbox),
                    ..v
                }
            } else {
                v
            },
            _ => v,
        }
    }
}

/// What the player wants done after something happened on the connection to the host.
pub open spec fn peer_event_actions(v: RemoteView, ev: PeerEvent, open: OpenChannels) -> Seq<
    RemoteAction,
> {
    if v.relayed is Some || !v.host_open {
        Seq::empty()
    } else {
        match ev {
            PeerEvent::AnswerReady(sdp) => match v.host {
                Some(peer_id) => seq![RemoteAction::SendAnswer { peer_id, sdp }],
                None => Seq::empty(),
            },
            PeerEvent::LocalIce(candidate) => match v.host {
                Some(peer_id) => seq![RemoteAction::SendIce { peer_id, candidate }],
                None => Seq::empty(),
            },
            PeerEvent::Message { bytes, .. } => seq![RemoteAction::Deliver { bytes }],
            PeerEvent::StateChanged(s) => if s == PeerState::Connected {
                seq![tell(RoomEvent::Connected)] + direct_sends(going(open, v.outbox))
            } else {
                Seq::empty()
            },
            _ => Seq::empty(),
        }
    }
}

/// No message is lost or doubled when the connection comes up: each waiting one is either sent or
/// keeps waiting.
pub proof fn law_waiting_messages_are_sent_or_kept(open: OpenChannels, msgs: Seq<ClientMessage>)
    ensures
        going(open, msgs).to_multiset().add(staying(open, msgs).to_multiset())
            == msgs.to_multiset(),
    decreases msgs.len(),
{
    broadcast use vstd::seq_lib::group_to_multiset_ensures;

    if msgs.len() > 0 {
        law_waiting_messages_are_sent_or_kept(open, msgs.drop_last());
        assert(msgs =~= msgs.drop_last().push(msgs.last()));
        assert(going(open, msgs).to_multiset().add(staying(open, msgs).to_multiset())
            =~= msgs.drop_last().to_multiset().insert(msgs.last()));
    } else {
        assert(going(open, msgs).to_multiset().add(staying(open, msgs).to_multiset())
            =~= msgs.to_multiset());
    }
}

/// Once messages are relayed, nothing waits any more, and everything that waited goes out in its
/// order.
pub proof fn law_relay_empties_the_outbox(v: RemoteView, peer_id: u32, max_rate: u32, i: int)
    requires
        is_from_host(v, peer_id),
        v.relayed is None,
        0 <= i < v.outbox.len(),
    ensures
        after_signal(v, SignalingEvent::RelayActive { peer_id, max_rate }).outbox.len() == 0,
        signal_actions(v, SignalingEvent::RelayActive { peer_id, max_rate }).contains(
            RemoteAction::SendRelayed { peer_id, msg: v.outbox[i] },
        ),
{
    let actions = signal_actions(v, SignalingEvent::RelayActive { peer_id, max_rate });
    let head = actions.len() - v.outbox.len();
    assert(actions[head + i] == RemoteAction::SendRelayed { peer_id, msg: v.outbox[i] });
}

/// Nothing that a stranger sends through the signaling service reaches the game.
pub proof fn law_strangers_are_not_heard(v: RemoteView, sender_peer_id: u32, payload: Vec<u8>)
    requires
        !is_from_host(v, sender_peer_id),
    ensures
        signal_actions(v, SignalingEvent::RelayBinary { sender_peer_id, payload }).len() == 0,
        after_signal(v, SignalingEvent::RelayBinary { sender_peer_id, payload }) == v,
{
}

/// What comes of sending a message to the host: the state after it, and how the message goes out,
/// if it does.
pub open spec fn send_outcome(v: RemoteView, msg: ClientMessage, open: OpenChannels) -> (
    RemoteView,
    Option<RemoteAction>,
) {
    match v.relayed {
        Some(peer_id) => (v, Some(RemoteAction::SendRelayed { peer_id, msg })),
        None => if v.host_open && can_go(open, msg) {
            (v, Some(RemoteAction::SendDirect { channel: channel_of(msg), msg }))
        } else {
            (RemoteView { outbox: v.outbox.push(msg), ..v }, None)
        },
    }
}

impl View for RemoteState {
    type V = RemoteView;

    closed spec fn view(&self) -> RemoteView {
        RemoteView {
            session: self.session,
            servers: self.ice_servers@,
            host_open: self.host_open,
            host: self.host_peer_id,
            relayed: self.relayed_host,
            outbox: self.outbox@,
            inbox: self.inbox@,
        }
    }
}

impl RemoteState {
    /// A player that is about to reach the signaling service.
    pub fn new() -> (r: RemoteState)
        ensures
            r@ == (RemoteView {
                session: RoomSession::SignalingConnect,
                servers: Seq::empty(),
                host_open: false,
                host: None,
                relayed: None,
                outbox: Seq::empty(),
                inbox: Seq::empty(),
            }),
    {
        RemoteState {
            session: RoomSession::SignalingConnect,
            ice_servers: Vec::new(),
            host_open: false,
            host_peer_id: None,
            relayed_host: None,
            outbox: VecDeque::new(),
            inbox: VecDeque::new(),
        }
    }

    pub fn session(&self) -> (r: &RoomSession)
        ensures
            *r == self@.session,
    {
        &self.session
    }

    pub fn ice_servers(&self) -> (r: &Vec<IceServerConfig>)
        ensures
            r@ == self@.servers,
    {
        &self.ice_servers
    }

    fn hears(&self, peer_id: u32) -> (r: bool)
        ensures
            r == is_from_host(self@, peer_id),
    {
        match self.host_peer_id {
            Some(id) => id == peer_id,
            None => false,
        }
    }

    /// Takes up a report of the signaling service.
    ///
    /// When the host has left, the session ends for that reason, and the room is told so.
    pub fn on_signal(&mut self, ev: SignalingEvent) -> (r: Vec<RemoteAction>)
        ensures
            (ev matches SignalingEvent::PeerLeft { peer_id } && is_from_host(old(self)@, peer_id))
                ==> {
                &&& ended_with(final(self)@.session, "host_left"@)
                &&& final(self)@ == (RemoteView { session: final(self)@.session, ..old(self)@ })
                &&& r@.len() == 1
                &&& tells_end(r@[0], "host_left"@)
            },
            !(ev matches SignalingEvent::PeerLeft { peer_id } && is_from_host(
                old(self)@,
                peer_id,
            )) ==> {
                &&& final(self)@ == after_signal(old(self)@, ev)
                &&& r@ == signal_actions(old(self)@, ev)
            },
    {
        let ghost before = self@;
        let ghost event = ev;
        let mut actions: Vec<RemoteAction> = Vec::new();
        match ev {
            SignalingEvent::Open => {
                self.session = RoomSession::AwaitRegistered;
            },
            SignalingEvent::Registered { existing_peers, ice_servers, .. } => {
                self.ice_servers = ice_servers;
                if existing_peers.len() > 0 {
                    let id: u32 = existing_peers[0];
                    self.host_peer_id = Some(id);
                    actions.push(RemoteAction::OpenHost { peer_id: id });
                } else {
                    self.session.enter_negotiating();
                }
            },
            SignalingEvent::Offer { from, sdp } => {
                if self.hears(from) && self.host_open {
                    actions.push(RemoteAction::AcceptOffer { sdp });
                    self.session.mark_offer_exchanged();
                }
            },
            SignalingEvent::Ice { from, candidate } => {
                if self.hears(from) && self.host_open {
                    actions.push(RemoteAction::AddIce { candidate });
                }
            },
            SignalingEvent::PeerLeft { peer_id } => {
                if self.hears(peer_id) {
                    actions.push(
                        RemoteAction::Tell {
                            event: RoomEvent::Disconnected { reason: "host_left".to_owned() },
                        },
                    );
                    self.session = RoomSession::Disconnected { reason: "host_left".to_owned() };
                }
            },
            SignalingEvent::PeerJoined { .. } => {},
            SignalingEvent::Answer { .. } => {},
            SignalingEvent::RoomClosed { reason } => {
                self.session = RoomSession::Disconnected { reason: reason.clone() };
                actions.push(RemoteAction::Tell { event: RoomEvent::Disconnected { reason } });
            },
            SignalingEvent::ServerError { message } => {
                actions.push(RemoteAction::Tell { event: RoomEvent::SignalingError(message) });
            },
            SignalingEvent::SocketError { message } => {
                actions.push(RemoteAction::Tell { event: RoomEvent::SignalingError(message) });
            },
            SignalingEvent::Closed => {},
            SignalingEvent::RelayActive { peer_id, .. } => {
                if self.hears(peer_id) && self.relayed_host.is_none() {
                    if self.host_open {
                        actions.push(RemoteAction::CloseHost);
                    }
                    self.host_open = false;
                    self.relayed_host = Some(peer_id);
                    self.session = RoomSession::Connected;
                    actions.push(RemoteAction::Tell { event: RoomEvent::Connected });
                    actions.push(RemoteAction::Tell { event: RoomEvent::PeerRelayed { peer_id } });
                    let ghost head = actions@;
                    let ghost waiting = self.outbox@;
                    let ghost mut sent: int = 0;
                    let mut more = true;
                    proof {
                        assert(waiting.skip(0) =~= waiting);
                        assert(head + relayed_sends(peer_id, waiting.take(0)) =~= head);
                    }
                    while more
                        invariant
                            0 <= sent <= waiting.len(),
                            waiting == before.outbox,
                            self.outbox@ == waiting.skip(sent),
                            !more ==> sent == waiting.len(),
                            actions@ == head + relayed_sends(peer_id, waiting.take(sent)),
                            self@ == (RemoteView {
                                host_open: false,
                                relayed: Some(peer_id),
                                session: RoomSession::Connected,
                                outbox: self.outbox@,
                                ..before
                            }),
                        decreases waiting.len() - sent + (if more { 1int } else { 0int }),
                    {
                        match self.outbox.pop_front() {
                            Some(msg) => {
                                proof {
                                    assert(msg == waiting[sent]);
                                }
                                actions.push(RemoteAction::SendRelayed { peer_id, msg });
                                proof {
                                    assert(waiting.skip(sent).drop_first() =~= waiting.skip(
                                        sent + 1,
                                    ));
                                    assert(waiting.skip(sent).skip(1) =~= waiting.skip(sent + 1));
                                    assert(actions@ =~= head + relayed_sends(
                                        peer_id,
                                        waiting.take(sent + 1),
                                    ));
                                    sent = sent + 1;
                                }
                            },
                            None => {
                                more = false;
                            },
                        }
                    }
                    proof {
                        assert(waiting.take(waiting.len() as int) =~= waiting);
                        assert(self.outbox@ =~= Seq::<ClientMessage>::empty());
                    }
                }
            },
            SignalingEvent::RelayClosed { peer_id, reason } => {
                if self.hears(peer_id) {
                    self.relayed_host = None;
                    self.session = RoomSession::Disconnected { reason: reason.clone() };
                    actions.push(RemoteAction::Tell { event: RoomEvent::Disconnected { reason } });
                }
            },
            SignalingEvent::RelayBinary { sender_peer_id, payload } => {
                if self.hears(sender_peer_id) && self.relayed_host.is_some() {
                    actions.push(RemoteAction::Deliver { bytes: payload });
                }
            },
        }
        proof {
            if !(event matches SignalingEvent::PeerLeft { peer_id } && is_from_host(
                before,
                peer_id,
            )) {
                assert(self@ =~= after_signal(before, event));
                assert(actions@ =~= signal_actions(before, event));
            }
        }
        actions
    }

    /// The connection to the host that was asked for has been opened.
    pub fn on_host_opened(&mut self)
        ensures
            final(self)@ == (RemoteView {
                host_open: true,
                session: room::negotiating(old(self)@.session),
                ..old(self)@
            }),
    {
        self.host_open = true;
        self.session.enter_negotiating();
    }

    /// The connection to the host that was asked for could not be opened.
    pub fn on_host_failed(&mut self, why: String) -> (r: RemoteAction)
        ensures
            ended_with(final(self)@.session, "create_answerer failed"@),
            final(self)@ == (RemoteView { session: final(self)@.session, ..old(self)@ }),
            r == tell(RoomEvent::SignalingError(why)),
    {
        self.session = RoomSession::Disconnected { reason: "create_answerer failed".to_owned() };
        RemoteAction::Tell { event: RoomEvent::SignalingError(why) }
    }

    /// Something happened on the connection to the host.
    pub fn on_peer_event(&mut self, ev: PeerEvent, open: OpenChannels) -> (r: Vec<RemoteAction>)
        ensures
            final(self)@ == after_peer_event(old(self)@, ev, open),
            r@ == peer_event_actions(old(self)@, ev, open),
    {
        let ghost before = self@;
        let ghost event = ev;
        let mut actions: Vec<RemoteAction> = Vec::new();
        if self.relayed_host.is_some() || !self.host_open {
            return actions;
        }
        match ev {
            PeerEvent::AnswerReady(sdp) => {
                if let Some(peer_id) = self.host_peer_id {
                    actions.push(RemoteAction::SendAnswer { peer_id, sdp });
                    self.session.mark_answer_exchanged();
                }
            },
            PeerEvent::LocalIce(candidate) => {
                if let Some(peer_id) = self.host_peer_id {
                    actions.push(RemoteAction::SendIce { peer_id, candidate });
                }
            },
            PeerEvent::Message { bytes, .. } => {
                actions.push(RemoteAction::Deliver { bytes });
            },
            PeerEvent::StateChanged(state) => {
                if state == PeerState::Connected {
                    self.session = RoomSession::Connected;
                    actions.push(RemoteAction::Tell { event: RoomEvent::Connected });
                    let ghost head = actions@;
                    let ghost waiting = self.outbox@;
                    let ghost mut done: int = 0;
                    let mut kept: VecDeque<ClientMessage> = VecDeque::new();
                    let mut more = true;
                    proof {
                        assert(waiting.skip(0) =~= waiting);
                        assert(waiting.take(0) =~= Seq::<ClientMessage>::empty());
                        assert(head + direct_sends(going(open, waiting.take(0))) =~= head);
                    }
                    while more
                        invariant
                            0 <= done <= waiting.len(),
                            waiting == before.outbox,
                            self.outbox@ == waiting.skip(done),
                            !more ==> done == waiting.len(),
                            kept@ == staying(open, waiting.take(done)),
                            actions@ == head + direct_sends(going(open, waiting.take(done))),
                            self@ == (RemoteView {
                                session: RoomSession::Connected,
                                outbox: self.outbox@,
                                ..before
                            }),
                        decreases waiting.len() - done + (if more { 1int } else { 0int }),
                    {
                        match self.outbox.pop_front() {
                            Some(msg) => {
                                let ghost taken = msg;
                                let ghost earlier = going(open, waiting.take(done));
                                proof {
                                    assert(msg == waiting[done]);
                                    assert(waiting.take(done + 1).drop_last() =~= waiting.take(
                                        done,
                                    ));
                                    assert(waiting.take(done + 1).last() == msg);
                                    assert(waiting.skip(done).skip(1) =~= waiting.skip(done + 1));
                                    assert(waiting.skip(done).drop_first() =~= waiting.skip(
                                        done + 1,
                                    ));
                                }
                                let channel = channel_for_client_message(&msg);
                                let go = match channel {
                                    ChannelKind::Reliable => open.reliable,
                                    ChannelKind::Unreliable => open.unreliable,
                                };
                                if go {
                                    actions.push(RemoteAction::SendDirect { channel, msg });
                                    proof {
                                        assert(direct_sends(earlier.push(taken)) =~= direct_sends(
                                            earlier,
                                        ).push(
                                            RemoteAction::SendDirect { channel, msg: taken },
                                        ));
                                        assert(actions@ =~= head + direct_sends(
                                            earlier.push(taken),
                                        ));
                                    }
                                } else {
                                    kept.push_back(msg);
                                }
                                proof {
                                    done = done + 1;
                                }
                            },
                            None => {
                                more = false;
                            },
                        }
                    }
                    proof {
                        assert(waiting.take(waiting.len() as int) =~= waiting);
                    }
                    self.outbox = kept;
                }
            },
            PeerEvent::OfferReady(_) => {},
            PeerEvent::RemoteDescApplied => {},
            PeerEvent::IceApplied => {},
            PeerEvent::NegotiationError(_) => {},
            PeerEvent::BufferFreed => {},
        }
        proof {
            assert(self@ =~= after_peer_event(before, event, open));
            assert(actions@ =~= peer_event_actions(before, event, open));
        }
        actions
    }

    /// Sends a message to the host, or lets it wait until there is a way.
    pub fn send_client_message(&mut self, msg: ClientMessage, open: OpenChannels) -> (r: Option<
        RemoteAction,
    >)
        ensures
            (final(self)@, r) == send_outcome(old(self)@, msg, open),
            match old(self)@.relayed {
                Some(peer_id) => final(self)@ == old(self)@ && r == Some(
                    RemoteAction::SendRelayed { peer_id, msg },
                ),
                None => if old(self)@.host_open && can_go(open, msg) {
                    final(self)@ == old(self)@ && r == Some(
                        RemoteAction::SendDirect { channel: channel_of(msg), msg },
                    )
                } else {
                    final(self)@ == (RemoteView {
                        outbox: old(self)@.outbox.push(msg),
                        ..old(self)@
                    }) && r is None
                },
            },
    {
        if let Some(peer_id) = self.relayed_host {
            return Some(RemoteAction::SendRelayed { peer_id, msg });
        }
        let channel = channel_for_client_message(&msg);
        let go = self.host_open && match channel {
            ChannelKind::Reliable => open.reliable,
            ChannelKind::Unreliable => open.unreliable,
        };
        if go {
            Some(RemoteAction::SendDirect { channel, msg })
        } else {
            self.outbox.push_back(msg);
            None
        }
    }

    /// Puts a message of the host with those received.
    pub fn receive(&mut self, msg: ServerMessage)
        ensures
            final(self)@ == (RemoteView { inbox: old(self)@.inbox.push(msg), ..old(self)@ }),
    {
        self.inbox.push_back(msg);
    }

    /// Takes the oldest message of the host.
    pub fn try_recv_server_message(&mut self) -> (r: Option<ServerMessage>)
        ensures
            old(self)@.inbox.len() == 0 ==> r is None && final(self)@ == old(self)@,
            old(self)@.inbox.len() > 0 ==> r == Some(old(self)@.inbox[0]) && final(self)@ == (
            RemoteView { inbox: old(self)@.inbox.drop_first(), ..old(self)@ }),
    {
        let ghost before = self@;
        let r = self.inbox.pop_front();
        proof {
            if before.inbox.len() > 0 {
                assert(self.inbox@ =~= before.inbox.drop_first());
            } else {
                assert(self.inbox@ =~= before.inbox);
            }
        }
        r
    }
}

/// A message leaves at once by the relay, if there is one, and otherwise on an open channel of the
/// connection to the host, on the channel for its kind. What cannot leave waits behind what waits
/// already, and nothing is lost or changed.
pub proof fn law_a_message_leaves_or_waits(v: RemoteView, msg: ClientMessage, open: OpenChannels)
    ensures
        ({
            let (a, r) = send_outcome(v, msg, open);
            let may_be_lost = msg is PlayerInput || msg is Ping;
            let direct = v.host_open && (if may_be_lost {
                open.unreliable
            } else {
                open.reliable
            });
            match r {
                Some(RemoteAction::SendRelayed { peer_id, msg: sent }) => v.relayed == Some(peer_id)
                    && sent == msg && a == v,
                Some(RemoteAction::SendDirect { channel, msg: sent }) => v.relayed is None && direct
                    && sent == msg && a == v && (channel == ChannelKind::Unreliable
                    <==> may_be_lost),
                Some(_) => false,
                None => v.relayed is None && !direct && a == (RemoteView {
                    outbox: v.outbox.push(msg),
                    ..v
                }),
            }
        }),
{
}

/// The guest connects to the first player that was in the room, who is the host; in an empty room
/// it waits. The servers named are kept either way.
pub proof fn law_the_first_player_is_the_host(
    v: RemoteView,
    peer_id: u32,
    existing_peers: Vec<u32>,
    ice_servers: Vec<IceServerConfig>,
)
    ensures
        ({
            let ev = SignalingEvent::Registered { peer_id, existing_peers, ice_servers };
            let a = after_signal(v, ev);
            let r = signal_actions(v, ev);
            &&& a.servers == ice_servers@
            &&& existing_peers@.len() > 0 ==> a.host == Some(existing_peers@[0]) && r == seq![
                RemoteAction::OpenHost { peer_id: existing_peers@[0] },
            ] && a.session == v.session
            &&& existing_peers@.len() == 0 ==> a.host == v.host && r.len() == 0 && a.session
                is Negotiating
            &&& a.outbox == v.outbox
            &&& after_signal(v, SignalingEvent::Open).session == RoomSession::AwaitRegistered
        }),
{
}

/// The host's offer and candidates are taken up, unchanged, while the connection is open; anyone
/// else's are let go.
pub proof fn law_only_the_hosts_offer_is_taken_up(
    v: RemoteView,
    from: u32,
    sdp: String,
    candidate: String,
)
    ensures
        ({
            let offer = SignalingEvent::Offer { from, sdp };
            let ice = SignalingEvent::Ice { from, candidate };
            &&& after_signal(v, ice) == v
            &&& if v.host == Some(from) && v.host_open {
                &&& signal_actions(v, offer) == seq![RemoteAction::AcceptOffer { sdp }]
                &&& signal_actions(v, ice) == seq![RemoteAction::AddIce { candidate }]
                &&& after_signal(v, offer).session == room::with_offer(v.session)
            } else {
                &&& signal_actions(v, offer).len() == 0
                &&& signal_actions(v, ice).len() == 0
                &&& after_signal(v, offer) == v
            }
        }),
{
}

/// When the host's messages are relayed, the direct connection is given up, and first it is told
/// that the guest is in the room and how; then everything that waited is sent, in its order. A
/// relay that stands is not set up twice, and only the host's counts.
pub proof fn law_a_relay_takes_over_from_the_host(
    v: RemoteView,
    peer_id: u32,
    max_rate: u32,
    i: int,
)
    ensures
        ({
            let ev = SignalingEvent::RelayActive { peer_id, max_rate };
            let a = after_signal(v, ev);
            let r = signal_actions(v, ev);
            let closing: int = if v.host_open {
                1
            } else {
                0
            };
            if v.host == Some(peer_id) && v.relayed is None {
                &&& a.relayed == Some(peer_id)
                &&& !a.host_open
                &&& a.session == RoomSession::Connected
                &&& a.outbox.len() == 0
                &&& r.len() == closing + 2 + v.outbox.len()
                &&& v.host_open ==> r[0] == RemoteAction::CloseHost
                &&& r[closing] == RemoteAction::Tell { event: RoomEvent::Connected }
                &&& r[closing + 1] == RemoteAction::Tell {
                    event: RoomEvent::PeerRelayed { peer_id },
                }
                &&& 0 <= i < v.outbox.len() ==> r[closing + 2 + i] == RemoteAction::SendRelayed {
                    peer_id,
                    msg: v.outbox[i],
                }
                &&& after_signal(a, ev) == a
                &&& signal_actions(a, ev).len() == 0
            } else {
                a == v && r.len() == 0
            }
        }),
{
}

/// A closed room, and the host's relay being closed, end the stay with the reason given, which is
/// told; trouble with the service is told and changes nothing. Another player's relay does not
/// matter.
pub proof fn law_the_end_is_told_with_its_reason(v: RemoteView, peer_id: u32, words: String)
    ensures
        ({
            let closed = SignalingEvent::RoomClosed { reason: words };
            let relay = SignalingEvent::RelayClosed { peer_id, reason: words };
            let server = SignalingEvent::ServerError { message: words };
            let socket = SignalingEvent::SocketError { message: words };
            let ended = seq![
                RemoteAction::Tell { event: RoomEvent::Disconnected { reason: words } },
            ];
            let trouble = seq![RemoteAction::Tell { event: RoomEvent::SignalingError(words) }];
            &&& signal_actions(v, closed) == ended
            &&& after_signal(v, closed).session == (RoomSession::Disconnected { reason: words })
            &&& signal_actions(v, server) == trouble
            &&& signal_actions(v, socket) == trouble
            &&& after_signal(v, server) == v
            &&& after_signal(v, socket) == v
            &&& v.host == Some(peer_id) ==> signal_actions(v, relay) == ended && after_signal(
                v,
                relay,
            ).relayed is None && after_signal(v, relay).session == (RoomSession::Disconnected {
                reason: words,
            })
            &&& v.host != Some(peer_id) ==> signal_actions(v, relay).len() == 0 && after_signal(
                v,
                relay,
            ) == v
        }),
{
}

/// Bytes of the host are delivered unchanged: through the relay while there is one, and directly
/// while there is none and the connection is open.
pub proof fn law_the_hosts_bytes_are_delivered(
    v: RemoteView,
    sender_peer_id: u32,
    payload: Vec<u8>,
    channel: ChannelKind,
    open: OpenChannels,
)
    ensures
        ({
            let relayed = SignalingEvent::RelayBinary { sender_peer_id, payload };
            let direct = PeerEvent::Message { channel, bytes: payload };
            let deliver = seq![RemoteAction::Deliver { bytes: payload }];
            &&& v.host == Some(sender_peer_id) && v.relayed is Some ==> signal_actions(v, relayed)
                == deliver
            &&& v.host != Some(sender_peer_id) || v.relayed is None ==> signal_actions(
                v,
                relayed,
            ).len() == 0
            &&& v.relayed is None && v.host_open ==> peer_event_actions(v, direct, open) == deliver
            &&& v.relayed is Some || !v.host_open ==> peer_event_actions(v, direct, open).len() == 0
            &&& after_peer_event(v, direct, open) == v
        }),
{
}

/// The guest's answer and candidates go to the host, unchanged; once both channels are open the
/// guest is in the room, that is told, and everything that waited and has a channel now is sent.
pub proof fn law_the_connection_comes_up(
    v: RemoteView,
    sdp: String,
    candidate: String,
    open: OpenChannels,
    host: u32,
)
    requires
        v.relayed is None,
        v.host_open,
        v.host == Some(host),
    ensures
        ({
            let answer = PeerEvent::AnswerReady(sdp);
            let ice = PeerEvent::LocalIce(candidate);
            let up = PeerEvent::StateChanged(PeerState::Connected);
            let a = after_peer_event(v, up, open);
            let r = peer_event_actions(v, up, open);
            &&& peer_event_actions(v, answer, open) == seq![
                RemoteAction::SendAnswer { peer_id: host, sdp },
            ]
            &&& after_peer_event(v, answer, open).session == room::with_answer(v.session)
            &&& peer_event_actions(v, ice, open) == seq![
                RemoteAction::SendIce { peer_id: host, candidate },
            ]
            &&& a.session == RoomSession::Connected
            &&& r.len() > 0
            &&& r[0] == RemoteAction::Tell { event: RoomEvent::Connected }
            &&& open.reliable && open.unreliable ==> a.outbox.len() == 0 && r.len()
                == v.outbox.len() + 1
            &&& !open.reliable && !open.unreliable ==> a.outbox == v.outbox && r.len() == 1
        }),
{
    lemma_all_or_none(open, v.outbox);
}

proof fn lemma_all_or_none(open: OpenChannels, msgs: Seq<ClientMessage>)
    ensures
        open.reliable && open.unreliable ==> going(open, msgs) == msgs && staying(open, msgs).len()
            == 0,
        !open.reliable && !open.unreliable ==> going(open, msgs).len() == 0 && staying(open, msgs)
            == msgs,
    decreases msgs.len(),
{
    if msgs.len() > 0 {
        lemma_all_or_none(open, msgs.drop_last());
        assert(msgs.drop_last().push(msgs.last()) =~= msgs);
    }
}

/// Of what waits, what goes out and what stays behind keep their order: a message more at the end
/// goes out last, or waits last.
pub proof fn law_waiting_messages_keep_their_order(
    open: OpenChannels,
    msgs: Seq<ClientMessage>,
    more: ClientMessage,
)
    ensures
        ({
            let goes = if more is PlayerInput || more is Ping {
                open.unreliable
            } else {
                open.reliable
            };
            &&& going(open, msgs.push(more)) == (if goes {
                going(open, msgs).push(more)
            } else {
                going(open, msgs)
            })
            &&& staying(open, msgs.push(more)) == (if goes {
                staying(open, msgs)
            } else {
                staying(open, msgs).push(more)
            })
        }),
{
    assert(msgs.push(more).drop_last() =~= msgs);
}

/// An end is told in its own words and in no others.
pub proof fn law_an_end_has_one_reason(reason: String, words: Seq<char>)
    ensures
        ended_with(RoomSession::Disconnected { reason }, words) <==> reason@ == words,
        tells_end(
            RemoteAction::Tell { event: RoomEvent::Disconnected { reason } },
            words,
        ) <==> reason@ == words,
        !ended_with(RoomSession::Connected, words),
        !tells_end(RemoteAction::Tell { event: RoomEvent::Connected }, words),
{
}

/// What happens on a connection that was given up for a relay, or that does not stand, is of no
/// account.
pub proof fn law_a_given_up_connection_is_silent(v: RemoteView, ev: PeerEvent, open: OpenChannels)
    requires
        v.relayed is Some || !v.host_open,
    ensures
        after_peer_event(v, ev, open) == v,
        peer_event_actions(v, ev, open).len() == 0,
{
}

} // verus!
