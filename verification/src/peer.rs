//! One connection to another player: its state, and when sending on it has to wait.
use vstd::prelude::*;

use crate::text::same_text;
use crate::transport::ChannelKind;

verus! {

/// State of a connection.
#[derive(Clone, Copy, Debug, PartialEq, Eq, Structural)]
pub enum PeerState {
    New,
    Negotiating,
    Connected,
    Disconnected,
    Failed,
}

/// What happens on a connection.
#[derive(Clone, Debug)]
pub enum PeerEvent {
    OfferReady(String),
    AnswerReady(String),
    RemoteDescApplied,
    IceApplied,
    LocalIce(String),
    Message { channel: ChannelKind, bytes: Vec<u8> },
    StateChanged(PeerState),
    NegotiationError(String),
    BufferFreed,
}

/// Why the network cannot be used.
#[derive(Clone, Copy, Debug, PartialEq, Eq, Structural)]
pub enum NetError {
    SignalingUnreachable,
    PeerConnectionFailed,
    DataChannelClosed,
    InvalidRoomId,
    Timeout,
}

/// Bytes waiting on the reliable channel below which sending goes on.
pub const BUFFERED_LOW_THRESHOLD: u32 = 262144;

/// Bytes waiting on the reliable channel from which on sending stops.
pub const BUFFERED_HIGH_WATER: u32 = 1048576;

/// What a connection knows of its state and its two channels.
#[derive(Clone, Copy, Debug, PartialEq, Eq, Structural)]
pub struct PeerLink {
    pub state: PeerState,
    pub reliable_open: bool,
    pub unreliable_open: bool,
    /// Sending on the reliable channel waits until enough has drained.
    pub reliable_paused: bool,
}

/// The state that the browser's word for the connection stands for; `None` for an unknown word.
pub open spec fn state_named(word: Seq<char>, both_open: bool) -> Option<PeerState> {
    if word == "checking"@ || word == "new"@ {
        Some(PeerState::Negotiating)
    } else if word == "connected"@ || word == "completed"@ {
        Some(
            if both_open {
                PeerState::Connected
            } else {
                PeerState::Negotiating
            },
        )
    } else if word == "disconnected"@ || word == "closed"@ {
        Some(PeerState::Disconnected)
    } else if word == "failed"@ {
        Some(PeerState::Failed)
    } else {
        None
    }
}

/// The link after the browser's word for the connection.
pub open spec fn after_word(link: PeerLink, word: Seq<char>) -> PeerLink {
    PeerLink {
        state: match state_named(word, link.both_open()) {
            Some(next) => next,
            None => link.state,
        },
        ..link
    }
}

/// The link after a channel has opened.
pub open spec fn after_channel_open(link: PeerLink, kind: ChannelKind) -> PeerLink {
    let opened = match kind {
        ChannelKind::Reliable => PeerLink { reliable_open: true, ..link },
        ChannelKind::Unreliable => PeerLink { unreliable_open: true, ..link },
    };
    if opened.both_open() {
        PeerLink { state: PeerState::Connected, ..opened }
    } else {
        opened
    }
}

/// The link after a channel has closed.
pub open spec fn after_channel_close(link: PeerLink, kind: ChannelKind) -> PeerLink {
    let shut = match kind {
        ChannelKind::Reliable => PeerLink { reliable_open: false, ..link },
        ChannelKind::Unreliable => PeerLink { unreliable_open: false, ..link },
    };
    if link.state == PeerState::Connected {
        PeerLink { state: PeerState::Disconnected, ..shut }
    } else {
        shut
    }
}

/// The link after bytes were handed to a channel.
pub open spec fn after_send(link: PeerLink, kind: ChannelKind, buffered: u32) -> PeerLink {
    PeerLink {
        reliable_paused: link.reliable_paused || (kind == ChannelKind::Reliable && buffered
            >= BUFFERED_HIGH_WATER),
        ..link
    }
}

/// What is reported of a link that has changed: its new state, if that is another.
pub open spec fn report_of(before: PeerLink, after: PeerLink) -> Option<PeerState> {
    if before.state == after.state {
        None
    } else {
        Some(after.state)
    }
}

impl PeerLink {
    pub open spec fn both_open(self) -> bool {
        self.reliable_open && self.unreliable_open
    }

    pub open spec fn open_spec(self, kind: ChannelKind) -> bool {
        match kind {
            ChannelKind::Reliable => self.reliable_open,
            ChannelKind::Unreliable => self.unreliable_open,
        }
    }

    /// A connection that has not been used yet.
    pub fn new() -> (r: PeerLink)
        ensures
            r == (PeerLink {
                state: PeerState::New,
                reliable_open: false,
                unreliable_open: false,
                reliable_paused: false,
            }),
    {
        PeerLink {
            state: PeerState::New,
            reliable_open: false,
            unreliable_open: false,
            reliable_paused: false,
        }
    }

    pub fn is_open(&self, kind: ChannelKind) -> (r: bool)
        ensures
            r == self.open_spec(kind),
    {
        match kind {
            ChannelKind::Reliable => self.reliable_open,
            ChannelKind::Unreliable => self.unreliable_open,
        }
    }

    pub fn is_connected(&self) -> (r: bool)
        ensures
            r == self.both_open(),
    {
        self.reliable_open && self.unreliable_open
    }

    /// Takes up the browser's word for the connection. Returns the new state if it changed.
    pub fn ice_state_changed(&mut self, word: &str) -> (r: Option<PeerState>)
        ensures
            *final(self) == after_word(*old(self), word@),
            r == report_of(*old(self), *final(self)),
            final(self).reliable_open == old(self).reliable_open,
            final(self).unreliable_open == old(self).unreliable_open,
            final(self).reliable_paused == old(self).reliable_paused,
            final(self).state == (match state_named(word@, old(self).both_open()) {
                Some(next) => next,
                None => old(self).state,
            }),
            r == (if final(self).state == old(self).state {
                None
            } else {
                Some(final(self).state)
            }),
    {
        let next = if same_text(word, "checking") || same_text(word, "new") {
            PeerState::Negotiating
        } else if same_text(word, "connected") || same_text(word, "completed") {
            if self.reliable_open && self.unreliable_open {
                PeerState::Connected
            } else {
                PeerState::Negotiating
            }
        } else if same_text(word, "disconnected") || same_text(word, "closed") {
            PeerState::Disconnected
        } else if same_text(word, "failed") {
            PeerState::Failed
        } else {
            self.state
        };
        if next == self.state {
            None
        } else {
            self.state = next;
            Some(next)
        }
    }

    /// A channel has opened. The connection stands once both have.
    pub fn channel_opened(&mut self, kind: ChannelKind) -> (r: Option<PeerState>)
        ensures
            *final(self) == after_channel_open(*old(self), kind),
            r == report_of(*old(self), *final(self)),
            final(self).open_spec(kind),
            forall|other: ChannelKind|
                other != kind ==> final(self).open_spec(other) == old(self).open_spec(other),
            final(self).reliable_paused == old(self).reliable_paused,
            final(self).state == (if final(self).both_open() {
                PeerState::Connected
            } else {
                old(self).state
            }),
            r == (if final(self).state == old(self).state {
                None
            } else {
                Some(PeerState::Connected)
            }),
    {
        match kind {
            ChannelKind::Reliable => {
                self.reliable_open = true;
            },
            ChannelKind::Unreliable => {
                self.unreliable_open = true;
            },
        }
        if self.reliable_open && self.unreliable_open && self.state != PeerState::Connected {
            self.state = PeerState::Connected;
            Some(PeerState::Connected)
        } else {
            None
        }
    }

    /// A channel has closed. That ends a connection that stood.
    pub fn channel_closed(&mut self, kind: ChannelKind) -> (r: Option<PeerState>)
        ensures
            *final(self) == after_channel_close(*old(self), kind),
            r == report_of(*old(self), *final(self)),
            !final(self).open_spec(kind),
            forall|other: ChannelKind|
                other != kind ==> final(self).open_spec(other) == old(self).open_spec(other),
            final(self).reliable_paused == old(self).reliable_paused,
            final(self).state == (if old(self).state == PeerState::Connected {
                PeerState::Disconnected
            } else {
                old(self).state
            }),
            r == (if old(self).state == PeerState::Connected {
                Some(PeerState::Disconnected)
            } else {
                None
            }),
    {
        match kind {
            ChannelKind::Reliable => {
                self.reliable_open = false;
            },
            ChannelKind::Unreliable => {
                self.unreliable_open = false;
            },
        }
        if self.state == PeerState::Connected {
            self.state = PeerState::Disconnected;
            Some(PeerState::Disconnected)
        } else {
            None
        }
    }

    /// Whether bytes may be handed to a channel now.
    pub fn may_send(&self, kind: ChannelKind) -> (r: Result<(), NetError>)
        ensures
            r is Ok <==> self.open_spec(kind) && !(kind == ChannelKind::Reliable
                && self.reliable_paused),
            r matches Err(e) ==> e == NetError::DataChannelClosed,
    {
        if !self.is_open(kind) {
            return Err(NetError::DataChannelClosed);
        }
        if kind == ChannelKind::Reliable && self.reliable_paused {
            return Err(NetError::DataChannelClosed);
        }
        Ok(())
    }

    /// Notes how many bytes wait on a channel after a message was handed to it.
    pub fn sent(&mut self, kind: ChannelKind, buffered: u32)
        ensures
            *final(self) == after_send(*old(self), kind, buffered),
            *final(self) == (PeerLink {
                reliable_paused: old(self).reliable_paused || (kind == ChannelKind::Reliable
                    && buffered >= BUFFERED_HIGH_WATER),
                ..*old(self)
            }),
    {
        if kind == ChannelKind::Reliable && buffered >= BUFFERED_HIGH_WATER {
            self.reliable_paused = true;
        }
    }

    /// Enough bytes have drained from the reliable channel.
    pub fn drained(&mut self)
        ensures
            *final(self) == (PeerLink { reliable_paused: false, ..*old(self) }),
    {
        self.reliable_paused = false;
    }

    /// A negotiation has begun.
    pub fn negotiation_started(&mut self)
        ensures
            *final(self) == (PeerLink { state: PeerState::Negotiating, ..*old(self) }),
    {
        self.state = PeerState::Negotiating;
    }

    /// The connection has been given up.
    pub fn closed(&mut self)
        ensures
            *final(self) == (PeerLink { state: PeerState::Disconnected, ..*old(self) }),
    {
        self.state = PeerState::Disconnected;
    }
}

/// A connection stands exactly from when both of its channels are open: opening them in either
/// order leads there, and the first of them alone does not.
pub proof fn law_a_connection_stands_on_both_channels(link: PeerLink, kind: ChannelKind)
    ensures
        ({
            let one = after_channel_open(link, kind);
            let both = after_channel_open(
                after_channel_open(link, ChannelKind::Reliable),
                ChannelKind::Unreliable,
            );
            let swapped = after_channel_open(
                after_channel_open(link, ChannelKind::Unreliable),
                ChannelKind::Reliable,
            );
            &&& both == swapped
            &&& both.state == PeerState::Connected
            &&& both.reliable_open && both.unreliable_open
            &&& one.state == PeerState::Connected <==> one.reliable_open && one.unreliable_open
                || link.state == PeerState::Connected
            &&& one.state != PeerState::Connected ==> one.state == link.state
            &&& one.reliable_open == (link.reliable_open || kind == ChannelKind::Reliable)
            &&& one.unreliable_open == (link.unreliable_open || kind == ChannelKind::Unreliable)
            &&& one.reliable_paused == link.reliable_paused
        }),
{
}

/// A channel that closes is closed, and no other; it ends a connection that stood, and is told
/// then. Nothing stands before both channels are open again.
pub proof fn law_a_closed_channel_ends_the_connection(link: PeerLink, kind: ChannelKind)
    ensures
        ({
            let a = after_channel_close(link, kind);
            &&& kind == ChannelKind::Reliable ==> !a.reliable_open && a.unreliable_open
                == link.unreliable_open
            &&& kind == ChannelKind::Unreliable ==> !a.unreliable_open && a.reliable_open
                == link.reliable_open
            &&& link.state == PeerState::Connected ==> a.state == PeerState::Disconnected
                && report_of(link, a) == Some(PeerState::Disconnected)
            &&& link.state != PeerState::Connected ==> a.state == link.state && report_of(link, a)
                is None
            &&& after_channel_open(a, kind).state == PeerState::Connected ==> link.reliable_open
                || link.unreliable_open
        }),
{
}

/// The browser's word alone makes no connection stand: with a channel missing it counts as being
/// negotiated. A lost or failed connection is told as such, and an unknown word changes nothing.
pub proof fn law_words_of_the_browser_are_understood(link: PeerLink)
    ensures
        after_word(link, "connected"@).state == PeerState::Connected <==> link.reliable_open
            && link.unreliable_open,
        after_word(link, "completed"@) == after_word(link, "connected"@),
        !(link.reliable_open && link.unreliable_open) ==> after_word(link, "connected"@).state
            == PeerState::Negotiating,
        after_word(link, "checking"@).state == PeerState::Negotiating,
        after_word(link, "new"@).state == PeerState::Negotiating,
        after_word(link, "disconnected"@).state == PeerState::Disconnected,
        after_word(link, "closed"@).state == PeerState::Disconnected,
        after_word(link, "failed"@).state == PeerState::Failed,
        after_word(link, ""@) == link,
{
    reveal_strlit("checking");
    reveal_strlit("new");
    reveal_strlit("connected");
    reveal_strlit("completed");
    reveal_strlit("disconnected");
    reveal_strlit("closed");
    reveal_strlit("failed");
    reveal_strlit("");
    assert("checking"@.len() == 8);
    assert("new"@.len() == 3);
    assert("connected"@.len() == 9 && "connected"@[2] == 'n');
    assert("completed"@.len() == 9 && "completed"@[2] == 'm');
    assert("disconnected"@.len() == 12);
    assert("closed"@.len() == 6 && "closed"@[0] == 'c');
    assert("failed"@.len() == 6 && "failed"@[0] == 'f');
    assert(""@.len() == 0);
}

/// The reliable channel pauses when a megabyte waits on it, and stays paused until it has drained;
/// the other channel never does.
pub proof fn law_a_full_channel_pauses(link: PeerLink, kind: ChannelKind, buffered: u32)
    ensures
        ({
            let a = after_send(link, kind, buffered);
            &&& a.reliable_paused <==> link.reliable_paused || kind == ChannelKind::Reliable
                && buffered >= 0x10_0000
            &&& a.state == link.state
            &&& a.reliable_open == link.reliable_open
            &&& a.unreliable_open == link.unreliable_open
        }),
{
}

} // verus!
