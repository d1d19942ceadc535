//! Which of the two data channels carries a message.
use vstd::prelude::*;

use crate::protocol::{ClientMessage, ServerMessage};

verus! {

/// A data channel between two players.
#[derive(Clone, Copy, Debug, PartialEq, Eq, Structural)]
pub enum ChannelKind {
    /// In order and without loss.
    Reliable,
    /// Late or lost messages are not sent again.
    Unreliable,
}

/// Messages that a newer one makes worthless, and heartbeats, may be lost.
pub open spec fn may_be_lost_by_client(msg: ClientMessage) -> bool {
    msg is PlayerInput || msg is Ping
}

/// Messages that a newer one makes worthless, and heartbeats, may be lost.
pub open spec fn may_be_lost_by_server(msg: ServerMessage) -> bool {
    msg is PlayerTick || msg is FreeObjectState || msg is FreeObjectStateBatch || msg is Pong
}

pub open spec fn channel_of(may_be_lost: bool) -> ChannelKind {
    if may_be_lost {
        ChannelKind::Unreliable
    } else {
        ChannelKind::Reliable
    }
}

pub fn channel_for_client_message(msg: &ClientMessage) -> (r: ChannelKind)
    ensures
        r == channel_of(may_be_lost_by_client(*msg)),
{
    match msg {
        ClientMessage::PlayerInput { .. } => ChannelKind::Unreliable,
        ClientMessage::Ping { .. } => ChannelKind::Unreliable,
        ClientMessage::Hello { .. } => ChannelKind::Reliable,
        ClientMessage::FieldRequest { .. } => ChannelKind::Reliable,
        ClientMessage::Break { .. } => ChannelKind::Reliable,
        ClientMessage::Place { .. } => ChannelKind::Reliable,
        ClientMessage::Chat { .. } => ChannelKind::Reliable,
    }
}

pub fn channel_for_server_message(msg: &ServerMessage) -> (r: ChannelKind)
    ensures
        r == channel_of(may_be_lost_by_server(*msg)),
{
    match msg {
        ServerMessage::PlayerTick { .. } => ChannelKind::Unreliable,
        ServerMessage::FreeObjectState { .. } => ChannelKind::Unreliable,
        ServerMessage::FreeObjectStateBatch { .. } => ChannelKind::Unreliable,
        ServerMessage::Pong { .. } => ChannelKind::Unreliable,
        ServerMessage::Welcome { .. } => ChannelKind::Reliable,
        ServerMessage::HostSettings { .. } => ChannelKind::Reliable,
        ServerMessage::FieldSnapshot { .. } => ChannelKind::Reliable,
        ServerMessage::FieldDelta { .. } => ChannelKind::Reliable,
        ServerMessage::FreeObjectSpawn { .. } => ChannelKind::Reliable,
        ServerMessage::FreeObjectProject { .. } => ChannelKind::Reliable,
        ServerMessage::FreeObjectSpawnBatch { .. } => ChannelKind::Reliable,
        ServerMessage::FreeObjectProjectBatch { .. } => ChannelKind::Reliable,
        ServerMessage::ActionAck { .. } => ChannelKind::Reliable,
        ServerMessage::PeerJoined { .. } => ChannelKind::Reliable,
        ServerMessage::PeerLeft { .. } => ChannelKind::Reliable,
        ServerMessage::Chat { .. } => ChannelKind::Reliable,
    }
}

/// Only what is soon out of date may be lost: positions and the questions for the clock, and their
/// counterparts of the host. Everything that changes the world, the room or the chat, and every
/// answer to a request, goes where nothing is lost.
pub proof fn law_only_passing_news_may_be_lost(c: ClientMessage, s: ServerMessage)
    ensures
        channel_of(may_be_lost_by_client(c)) == ChannelKind::Reliable <==> c is Hello || c is Break
            || c is Place || c is Chat || c is FieldRequest,
        channel_of(may_be_lost_by_server(s)) == ChannelKind::Reliable <==> s is Welcome || s
            is FieldSnapshot || s is FieldDelta || s is FreeObjectSpawn || s is FreeObjectProject
            || s is FreeObjectSpawnBatch || s is FreeObjectProjectBatch || s is ActionAck || s
            is PeerJoined || s is PeerLeft || s is Chat || s is HostSettings,
{
}

} // verus!
