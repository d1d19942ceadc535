//! How far a player has got on the way into a room.
use vstd::prelude::*;

verus! {

/// State of one loading step.
#[derive(Clone, Copy, Debug, PartialEq, Eq, Structural)]
pub enum StepStatus {
    Pending,
    InProgress,
    Done,
}

/// One line of the loading screen.
#[derive(Clone, Debug, PartialEq, Eq)]
pub struct LoadingStep {
    pub label: String,
    pub status: StepStatus,
}

/// What of the negotiation is done.
#[derive(Clone, Debug, PartialEq, Eq, Structural)]
pub struct NegotiationProgress {
    pub signaling_ok: bool,
    pub registered: bool,
    /// The offer has left the host, or reached the player.
    pub offer_exchanged: bool,
    /// The answer has left the player, or reached the host.
    pub answer_exchanged: bool,
    pub data_channel_opened: bool,
}

impl Default for NegotiationProgress {
    fn default() -> (r: NegotiationProgress)
        ensures
            r == (NegotiationProgress {
                signaling_ok: false,
                registered: false,
                offer_exchanged: false,
                answer_exchanged: false,
                data_channel_opened: false,
            }),
    {
        NegotiationProgress {
            signaling_ok: false,
            registered: false,
            offer_exchanged: false,
            answer_exchanged: false,
            data_channel_opened: false,
        }
    }
}

/// Stage of a stay in a room.
#[derive(Clone, Debug, PartialEq, Eq)]
pub enum RoomSession {
    Idle,
    SignalingConnect,
    AwaitRegistered,
    Negotiating(NegotiationProgress),
    Connected,
    Disconnected { reason: String },
}

impl Default for RoomSession {
    fn default() -> (r: RoomSession)
        ensures
            r == RoomSession::Idle,
    {
        RoomSession::Idle
    }
}

/// A negotiation that has just begun.
pub open spec fn fresh_progress() -> NegotiationProgress {
    NegotiationProgress {
        signaling_ok: true,
        registered: true,
        offer_exchanged: false,
        answer_exchanged: false,
        data_channel_opened: false,
    }
}

/// The session once a negotiation has begun.
pub open spec fn negotiating(s: RoomSession) -> RoomSession {
    if s is Negotiating {
        s
    } else {
        RoomSession::Negotiating(fresh_progress())
    }
}

/// The session once the offer is known to have been exchanged.
pub open spec fn with_offer(s: RoomSession) -> RoomSession {
    match s {
        RoomSession::Negotiating(p) => RoomSession::Negotiating(
            NegotiationProgress { offer_exchanged: true, ..p },
        ),
        _ => s,
    }
}

/// The session once the answer is known to have been exchanged.
pub open spec fn with_answer(s: RoomSession) -> RoomSession {
    match s {
        RoomSession::Negotiating(p) => RoomSession::Negotiating(
            NegotiationProgress { answer_exchanged: true, ..p },
        ),
        _ => s,
    }
}

/// The session once a data channel is open.
pub open spec fn with_channel(s: RoomSession) -> RoomSession {
    match s {
        RoomSession::Negotiating(p) => RoomSession::Negotiating(
            NegotiationProgress { data_channel_opened: true, ..p },
        ),
        _ => s,
    }
}

/// Number of steps of a connection.
pub const STEP_COUNT: usize = 5;

/// The label of a step.
pub open spec fn step_label(step: int) -> Seq<char> {
    if step == 0 {
        "Connecting to signaling server…"@
    } else if step == 1 {
        "Registering with room…"@
    } else if step == 2 {
        "Exchanging offer…"@
    } else if step == 3 {
        "Exchanging answer…"@
    } else {
        "Establishing data channel…"@
    }
}

/// Number of steps that are known to be done: a later step of a negotiation that is done shows
/// that the earlier ones are.
pub open spec fn steps_done(s: RoomSession) -> int {
    match s {
        RoomSession::Idle => 0,
        RoomSession::SignalingConnect => 0,
        RoomSession::AwaitRegistered => 1,
        RoomSession::Negotiating(p) => if p.data_channel_opened {
            5
        } else if p.answer_exchanged {
            4
        } else if p.offer_exchanged {
            3
        } else {
            2
        },
        RoomSession::Connected => 5,
        RoomSession::Disconnected { .. } => 5,
    }
}

/// The step that is under way: the first one that has not been reported.
pub open spec fn step_under_way(s: RoomSession) -> int {
    match s {
        RoomSession::Idle => 5,
        RoomSession::SignalingConnect => 0,
        RoomSession::AwaitRegistered => 1,
        RoomSession::Negotiating(p) => if !p.offer_exchanged {
            2
        } else if !p.answer_exchanged {
            3
        } else if !p.data_channel_opened {
            4
        } else {
            5
        },
        RoomSession::Connected => 5,
        RoomSession::Disconnected { .. } => 5,
    }
}

/// The state of a step.
pub open spec fn step_status(s: RoomSession, step: int) -> StepStatus {
    if step < steps_done(s) {
        StepStatus::Done
    } else if step == step_under_way(s) {
        StepStatus::InProgress
    } else {
        StepStatus::Pending
    }
}

impl RoomSession {
    /// Begins a negotiation, unless one is under way.
    pub fn enter_negotiating(&mut self)
        ensures
            *final(self) == negotiating(*old(self)),
    {
        match self {
            RoomSession::Negotiating(_) => {},
            _ => {
                *self = RoomSession::Negotiating(
                    NegotiationProgress {
                        signaling_ok: true,
                        registered: true,
                        offer_exchanged: false,
                        answer_exchanged: false,
                        data_channel_opened: false,
                    },
                );
            },
        }
    }

    pub fn mark_offer_exchanged(&mut self)
        ensures
            *final(self) == with_offer(*old(self)),
    {
        if let RoomSession::Negotiating(p) = self {
            p.offer_exchanged = true;
        }
    }

    pub fn mark_answer_exchanged(&mut self)
        ensures
            *final(self) == with_answer(*old(self)),
    {
        if let RoomSession::Negotiating(p) = self {
            p.answer_exchanged = true;
        }
    }

    pub fn mark_dc_open(&mut self)
        ensures
            *final(self) == with_channel(*old(self)),
    {
        if let RoomSession::Negotiating(p) = self {
            p.data_channel_opened = true;
        }
    }

    fn status_of(&self, step: usize) -> (r: StepStatus)
        requires
            step < STEP_COUNT,
        ensures
            r == step_status(*self, step as int),
    {
        match self {
            RoomSession::Idle => StepStatus::Pending,
            RoomSession::SignalingConnect => {
                if step == 0 {
                    StepStatus::InProgress
                } else {
                    StepStatus::Pending
                }
            },
            RoomSession::AwaitRegistered => {
                if step == 0 {
                    StepStatus::Done
                } else if step == 1 {
                    StepStatus::InProgress
                } else {
                    StepStatus::Pending
                }
            },
            RoomSession::Negotiating(p) => {
                let done = if step < 2 {
                    true
                } else if step == 2 {
                    p.offer_exchanged || p.answer_exchanged || p.data_channel_opened
                } else if step == 3 {
                    p.answer_exchanged || p.data_channel_opened
                } else {
                    p.data_channel_opened
                };
                let under_way: usize = if !p.offer_exchanged {
                    2
                } else if !p.answer_exchanged {
                    3
                } else if !p.data_channel_opened {
                    4
                } else {
                    5
                };
                if done {
                    StepStatus::Done
                } else if step == under_way {
                    StepStatus::InProgress
                } else {
                    StepStatus::Pending
                }
            },
            RoomSession::Connected => StepStatus::Done,
            RoomSession::Disconnected { .. } => StepStatus::Done,
        }
    }

    /// The steps of the connection, from the signaling service to the data channel.
    pub fn loading_steps(&self) -> (r: Vec<LoadingStep>)
        ensures
            r@.len() == STEP_COUNT,
            forall|i: int|
                0 <= i < STEP_COUNT ==> (#[trigger] r@[i]).label@ == step_label(i) && r@[i].status
                    == step_status(*self, i),
    {
        let mut steps: Vec<LoadingStep> = Vec::new();
        let mut i: usize = 0;
        while i < STEP_COUNT
            invariant
                i <= STEP_COUNT,
                steps@.len() == i,
                forall|k: int|
                    0 <= k < i ==> (#[trigger] steps@[k]).label@ == step_label(k)
                        && steps@[k].status == step_status(*self, k),
            decreases STEP_COUNT - i,
        {
            let label = if i == 0 {
                "Connecting to signaling server…"
            } else if i == 1 {
                "Registering with room…"
            } else if i == 2 {
                "Exchanging offer…"
            } else if i == 3 {
                "Exchanging answer…"
            } else {
                "Establishing data channel…"
            };
            let status = self.status_of(i);
            steps.push(LoadingStep { label: label.to_owned(), status });
            i += 1;
        }
        steps
    }
}

/// At every stage the done steps come first, at most one step is under way, and it is not a done
/// one.
pub proof fn law_steps_advance_in_order(s: RoomSession, i: int, j: int)
    requires
        0 <= i < j < STEP_COUNT,
    ensures
        step_status(s, j) == StepStatus::Done ==> step_status(s, i) == StepStatus::Done,
        step_status(s, i) == StepStatus::InProgress ==> step_status(s, j) != StepStatus::InProgress,
{
}

/// No report takes a done step back.
pub proof fn law_reports_never_undo_a_step(s: RoomSession)
    requires
        s is Negotiating,
    ensures
        steps_done(with_offer(s)) >= steps_done(s),
        steps_done(with_answer(s)) >= steps_done(s),
        steps_done(with_channel(s)) == 5,
        steps_done(negotiating(s)) == steps_done(s),
{
}

/// Each report of a negotiation marks its own step and no other, and reports outside of one change
/// nothing. In whatever order they come, after all three nothing is left to be done.
pub proof fn law_reports_mark_their_own_step(p: NegotiationProgress, s: RoomSession)
    ensures
        ({
            let n = RoomSession::Negotiating(p);
            let all = with_channel(with_answer(with_offer(n)));
            &&& with_offer(n) matches RoomSession::Negotiating(q)
            &&& q.offer_exchanged && q.answer_exchanged == p.answer_exchanged
                && q.data_channel_opened == p.data_channel_opened
            &&& with_answer(n) matches RoomSession::Negotiating(q)
            &&& q.answer_exchanged && q.offer_exchanged == p.offer_exchanged
                && q.data_channel_opened == p.data_channel_opened
            &&& with_channel(n) matches RoomSession::Negotiating(q)
            &&& q.data_channel_opened && q.offer_exchanged == p.offer_exchanged
                && q.answer_exchanged == p.answer_exchanged
            &&& all == with_offer(with_channel(with_answer(n)))
            &&& all == with_answer(with_offer(with_channel(n)))
            &&& forall|i: int| 0 <= i < STEP_COUNT ==> #[trigger] step_status(all, i)
                == StepStatus::Done
        }),
        !(s is Negotiating) ==> with_offer(s) == s && with_answer(s) == s && with_channel(s) == s,
{
}

/// How far the connection has got is shown step by step: before it is begun no step is done or under
/// way; while it is being made, the first step that is not done is under way, as long as the reports
/// come in their order; once it stands, all are done.
pub proof fn law_the_next_step_is_under_way(s: RoomSession, i: int)
    requires
        0 <= i < STEP_COUNT,
    ensures
        s is Idle ==> step_status(s, i) == StepStatus::Pending,
        s is Connected ==> step_status(s, i) == StepStatus::Done,
        s is SignalingConnect ==> (step_status(s, i) == StepStatus::InProgress <==> i == 0),
        s is SignalingConnect ==> step_status(s, i) != StepStatus::Done,
        s is AwaitRegistered ==> (step_status(s, i) == StepStatus::Done <==> i == 0),
        s is AwaitRegistered ==> (step_status(s, i) == StepStatus::InProgress <==> i == 1),
        s matches RoomSession::Negotiating(p) ==> {
            &&& i <= 1 ==> step_status(s, i) == StepStatus::Done
            &&& i == 2 ==> (step_status(s, i) == StepStatus::Done <==> p.offer_exchanged
                || p.answer_exchanged || p.data_channel_opened)
            &&& i == 3 ==> (step_status(s, i) == StepStatus::Done <==> p.answer_exchanged
                || p.data_channel_opened)
            &&& i == 4 ==> (step_status(s, i) == StepStatus::Done <==> p.data_channel_opened)
            &&& (p.data_channel_opened ==> p.answer_exchanged) && (p.answer_exchanged
                ==> p.offer_exchanged) ==> (step_status(s, i) == StepStatus::InProgress
                <==> step_status(s, i) != StepStatus::Done && step_status(s, i - 1)
                == StepStatus::Done)
        },
{
}

/// A negotiation begins with the service reached and the player registered, and nothing else; one
/// that is under way is not begun again.
pub proof fn law_a_negotiation_begins_once(s: RoomSession)
    ensures
        negotiating(s) is Negotiating,
        negotiating(negotiating(s)) == negotiating(s),
        s is Negotiating ==> negotiating(s) == s,
        !(s is Negotiating) ==> (negotiating(s) matches RoomSession::Negotiating(p)
            && p.signaling_ok && p.registered && !p.offer_exchanged && !p.answer_exchanged
            && !p.data_channel_opened),
{
}

/// Each step is told in words of its own, in the order in which a connection is made.
pub proof fn law_steps_have_their_own_words(a: int, b: int)
    requires
        0 <= a < STEP_COUNT,
        0 <= b < STEP_COUNT,
    ensures
        step_label(a) == step_label(b) <==> a == b,
        step_label(0)[0] == 'C' && step_label(1)[0] == 'R' && step_label(4)[2] == 't',
        step_label(2)[11] == 'o' && step_label(3)[11] == 'a',
{
    reveal_strlit("Connecting to signaling server…");
    reveal_strlit("Registering with room…");
    reveal_strlit("Exchanging offer…");
    reveal_strlit("Exchanging answer…");
    reveal_strlit("Establishing data channel…");
    assert(a != b ==> step_label(a).len() != step_label(b).len());
}

} // verus!
