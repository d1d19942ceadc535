//! What the player does in a world, and what the host is told of it.
use vstd::prelude::*;
use vstd::string::*;

use crate::app_state::GameMode;
use crate::block;
use crate::block::{BlockID, MaterialCell};
use crate::chunk;
use crate::chunk::{wrapping_sum, ChunkPos, Position};
use crate::chunk_loader;
use crate::chunk_loader::affected_chunks;
use crate::game;
use crate::game::{enqueue_all, Act, GameSession, GameView};
use crate::input::InputState;
use crate::maps;
use crate::maps::{keys_of, wide_keys_of};
use crate::mesh_jobs;
use crate::mesh_jobs::MeshPriority;
use crate::prediction;
use crate::prediction::{id_after, PendingAction, PendingKind, PendingView};
use crate::protocol::{AckReason, ClientMessage, ServerMessage, Vec3Bits};
use crate::raycast;
use crate::raycast::Axis;

verus! {

broadcast use vstd::std_specs::hash::group_hash_axioms;

/// How often the host is asked for its clock, in microseconds.
pub const PING_INTERVAL_US: u64 = 5_000_000;

/// How many unanswered questions for the clock are kept.
pub const MAX_PENDING_PINGS: usize = 16;

/// The block that the player looks at, and the side that is seen of it.
#[derive(Copy, Clone, Debug, PartialEq, Eq, Structural)]
pub struct BlockHit {
    pub pos: Position,
    pub normal: Position,
}

/// A change that the player asks for.
#[derive(Clone, Debug)]
pub struct Attempt {
    pub message: ClientMessage,
    /// What a guest writes into the world at once, ahead of the host's word.
    pub write: Option<(Position, BlockID)>,
}

/// One line of the list of players.
#[derive(Clone, Debug)]
pub struct PlayerListEntry {
    pub entity_id: u32,
    pub display_name: String,
    pub is_host: bool,
    pub is_me: bool,
}

/// Whether the player breaks a block now: the button is down, and the last block was broken long
/// enough ago.
pub open spec fn is_breaking(v: GameView, input: InputState, now_us: u64, cooldown_us: u64) -> bool {
    input.break_held && now_us - v.last_break_us >= cooldown_us
}

/// The place beside a block, on the side that is seen of it.
pub open spec fn beside(hit: BlockHit) -> Position {
    Position {
        x: chunk::wrap_i32(hit.pos.x + hit.normal.x),
        y: chunk::wrap_i32(hit.pos.y + hit.normal.y),
        z: chunk::wrap_i32(hit.pos.z + hit.normal.z),
    }
}

/// The stay after a change was asked for. A guest shows it at once.
pub open spec fn with_attempt(v: GameView, action: PendingAction) -> GameView {
    GameView {
        pending: PendingView {
            open: v.pending.open.insert(v.pending.next, action),
            next: prediction::next_id(v.pending.next),
        },
        jobs: if v.mode == GameMode::Remote {
            game::remeshed_at(v.jobs, action.pos)
        } else {
            v.jobs
        },
        ..v
    }
}

/// What a guest writes into the world at once.
pub open spec fn written(mode: GameMode, pos: Position, block: BlockID) -> Option<
    (Position, BlockID),
> {
    if mode == GameMode::Remote {
        Some((pos, block))
    } else {
        None
    }
}

/// What comes of an attempt to break a block: the stay after it, and the change asked for.
pub open spec fn break_outcome(
    v: GameView,
    input: InputState,
    now_us: u64,
    cooldown_us: u64,
    hit: Option<BlockHit>,
    backup: MaterialCell,
    player_position: Vec3Bits,
) -> (GameView, Option<Attempt>) {
    match hit {
        Some(hit) => if is_breaking(v, input, now_us, cooldown_us) {
            (
                GameView {
                    last_break_us: now_us,
                    ..with_attempt(
                        v,
                        PendingAction { kind: PendingKind::Break, pos: hit.pos, backup },
                    )
                },
                Some(
                    Attempt {
                        message: ClientMessage::Break {
                            pos: hit.pos,
                            request_id: v.pending.next,
                            input_tick: v.tick,
                            player_position,
                        },
                        write: written(v.mode, hit.pos, BlockID(BlockID::AIR)),
                    },
                ),
            )
        } else {
            (v, None)
        },
        None => (v, None),
    }
}

/// What comes of an attempt to place a block: the stay after it, and the change asked for.
pub open spec fn place_outcome(
    v: GameView,
    input: InputState,
    hit: Option<BlockHit>,
    block: BlockID,
    overlaps_player: bool,
    backup: MaterialCell,
    player_position: Vec3Bits,
) -> (GameView, Option<Attempt>) {
    match hit {
        Some(hit) => if input.place_just_pressed && !overlaps_player && block::block_of_cell(
            backup,
        ).0 == BlockID::AIR {
            (
                with_attempt(
                    v,
                    PendingAction { kind: PendingKind::Place(block), pos: beside(hit), backup },
                ),
                Some(
                    Attempt {
                        message: ClientMessage::Place {
                            pos: beside(hit),
                            block,
                            request_id: v.pending.next,
                            input_tick: v.tick,
                            player_position,
                        },
                        write: written(v.mode, beside(hit), block),
                    },
                ),
            )
        } else {
            (v, None)
        },
        None => (v, None),
    }
}

/// A change that the host refuses is undone: the cell is written back as it was. A change that it
/// accepts stands. Either way the chunk around it is right again, and the request is answered.
pub proof fn law_refused_changes_are_undone(
    v: GameView,
    action: PendingAction,
    accepted: bool,
    reason: AckReason,
    now_us: u64,
)
    ensures
        ({
            let asked = with_attempt(v, action);
            let msg = ServerMessage::ActionAck { request_id: v.pending.next, accepted, reason };
            &&& game::message_acts(asked, msg, now_us) == (if v.mode == GameMode::Remote
                && !accepted {
                seq![Act::WriteCell { pos: action.pos, cell: action.backup }]
            } else {
                Seq::empty()
            })
            &&& !game::after_message(asked, msg, now_us).pending.open.contains_key(v.pending.next)
        }),
{
}

/// The smallest of some numbers.
pub open spec fn smallest(s: Set<u64>) -> u64 {
    choose|k: u64| s.contains(k) && forall|j: u64| s.contains(j) ==> k <= j
}

/// The unanswered questions for the clock, as many as are kept: the oldest goes.
pub open spec fn kept_pings(pings: Map<u64, u64>) -> Map<u64, u64> {
    if pings.len() > MAX_PENDING_PINGS {
        pings.remove(smallest(pings.dom()))
    } else {
        pings
    }
}

/// Whether it is time to ask the host for its clock.
pub open spec fn is_ping_due(v: GameView, now_us: u64) -> bool {
    v.mode != GameMode::Local && v.me != 0 && now_us - v.last_ping_us >= PING_INTERVAL_US
}

/// The stay after the host was asked for its clock.
pub open spec fn after_ping(v: GameView, now_us: u64) -> GameView {
    GameView {
        pings: kept_pings(v.pings.insert((now_us / 1000) as u64, now_us)),
        last_ping_us: now_us,
        ..v
    }
}

proof fn lemma_has_smallest(list: Seq<u64>, s: Set<u64>)
    requires
        list.len() > 0,
        maps::lists_set(list, s),
    ensures
        s.contains(smallest(s)),
        forall|j: u64| #[trigger] s.contains(j) ==> smallest(s) <= j,
{
    let k = lemma_minimum(list);
    assert(list.contains(k));
    assert forall|j: u64| s.contains(j) implies k <= j by {
        assert(list.contains(j));
        let i = choose|i: int| 0 <= i < list.len() && list[i] == j;
        assert(k <= list[i]);
    }
    assert(s.contains(k) && forall|j: u64| s.contains(j) ==> k <= j);
}

proof fn lemma_minimum(list: Seq<u64>) -> (k: u64)
    requires
        list.len() > 0,
    ensures
        list.contains(k),
        forall|i: int| 0 <= i < list.len() ==> k <= #[trigger] list[i],
    decreases list.len(),
{
    if list.len() == 1 {
        assert(list[0] == list[0]);
        list[0]
    } else {
        let rest = list.drop_last();
        let m = lemma_minimum(rest);
        let i = choose|i: int| 0 <= i < rest.len() && rest[i] == m;
        assert(list[i] == m);
        let last = list.last();
        assert(list[list.len() - 1] == last);
        assert forall|i: int| 0 <= i < list.len() implies (if last < m {
            last
        } else {
            m
        }) <= #[trigger] list[i] by {
            if i < rest.len() {
                assert(m <= rest[i]);
            }
        }
        if last < m {
            last
        } else {
            m
        }
    }
}

/// There are never too many unanswered questions.
pub proof fn law_pings_stay_few(pings: Map<u64, u64>, time_ms: u64, now_us: u64)
    requires
        pings.dom().finite(),
        pings.len() <= MAX_PENDING_PINGS,
    ensures
        kept_pings(pings.insert(time_ms, now_us)).len() <= MAX_PENDING_PINGS,
{
    let all = pings.insert(time_ms, now_us);
    if all.len() > MAX_PENDING_PINGS {
        lemma_listed(all.dom());
        let (l, s) = (choose|l: Seq<u64>| maps::lists_set(l, all.dom()), all.dom());
        lemma_has_smallest(l, s);
    }
}

proof fn lemma_listed(s: Set<u64>)
    requires
        s.finite(),
    ensures
        exists|l: Seq<u64>| maps::lists_set(l, s),
    decreases s.len(),
{
    if s.len() == 0 {
        assert(s =~= Set::empty());
        assert(maps::lists_set(Seq::<u64>::empty(), s));
    } else {
        let x = s.choose();
        lemma_listed(s.remove(x));
        let l = choose|l: Seq<u64>| maps::lists_set(l, s.remove(x));
        let m = l.push(x);
        assert(!l.contains(x)) by {
            assert(!s.remove(x).contains(x));
        }
        assert forall|k: u64| #[trigger] m.contains(k) <==> s.contains(k) by {
            if m.contains(k) {
                let i = choose|i: int| 0 <= i < m.len() && m[i] == k;
                if i < l.len() {
                    assert(l.contains(k));
                }
            }
            if s.contains(k) && k != x {
                assert(s.remove(x).contains(k));
                assert(l.contains(k));
                let i = choose|i: int| 0 <= i < l.len() && l[i] == k;
                assert(m[i] == k);
            }
            if k == x {
                assert(m[l.len() as int] == x);
            }
        }
        assert forall|i: int, j: int| 0 <= i < m.len() && 0 <= j < m.len() && i != j implies m[i]
            != m[j] by {
            if i < l.len() {
                assert(l.contains(l[i]));
            }
            if j < l.len() {
                assert(l.contains(l[j]));
            }
        }
        assert(maps::lists_set(m, s));
    }
}

/// A list of players: those before one's own line have smaller numbers, and those after it are the
/// rest, all in the order of their numbers.
pub open spec fn is_player_list(list: Seq<PlayerListEntry>, v: GameView, own: int) -> bool {
    &&& 0 <= own < list.len()
    &&& list.len() == v.players.len() + 1
    &&& list[own].entity_id == v.me
    &&& list[own].display_name@ == v.name
    &&& list[own].is_me
    &&& list[own].is_host == (v.me == v.host)
    &&& forall|i: int|
        0 <= i < list.len() && i != own ==> {
            let e = #[trigger] list[i];
            &&& !e.is_me
            &&& v.players.contains_key(e.entity_id)
            &&& e.display_name@ == v.players[e.entity_id].name
            &&& e.is_host == (e.entity_id == v.host)
            &&& (i < own <==> e.entity_id < v.me)
        }
    &&& forall|i: int, j: int|
        0 <= i < j < list.len() && i != own && j != own ==> (#[trigger] list[i]).entity_id < (
        #[trigger] list[j]).entity_id
}

/// What stands behind the name of a player.
pub open spec fn suffix_text(is_host: bool, is_me: bool) -> Seq<char> {
    if is_host && is_me {
        " (Host, You)"@
    } else if is_host {
        " (Host)"@
    } else if is_me {
        " (You)"@
    } else {
        ""@
    }
}

/// What stands behind the name of a player.
pub fn role_suffix(is_host: bool, is_me: bool) -> (r: &'static str)
    ensures
        r@ == suffix_text(is_host, is_me),
{
    if is_host && is_me {
        " (Host, You)"
    } else if is_host {
        " (Host)"
    } else if is_me {
        " (You)"
    } else {
        ""
    }
}

/// The place beside a block, on the side that is seen of it.
pub fn place_target(hit: BlockHit) -> (r: Position)
    ensures
        r == beside(hit),
{
    Position::new(
        wrapping_sum(hit.pos.x, hit.normal.x),
        wrapping_sum(hit.pos.y, hit.normal.y),
        wrapping_sum(hit.pos.z, hit.normal.z),
    )
}

/// The numbers of a list, in their order.
fn sorted(list: &Vec<u32>) -> (r: Vec<u32>)
    requires
        list@.no_duplicates(),
    ensures
        r@.len() == list@.len(),
        forall|k: u32| #[trigger] r@.contains(k) <==> list@.contains(k),
        forall|i: int, j: int| 0 <= i < j < r@.len() ==> #[trigger] r@[i] < #[trigger] r@[j],
{
    let mut out: Vec<u32> = Vec::new();
    let mut n: usize = 0;
    while n < list.len()
        invariant
            n <= list@.len(),
            list@.no_duplicates(),
            out@.len() == n,
            forall|k: u32| #[trigger] out@.contains(k) <==> list@.take(n as int).contains(k),
            forall|i: int, j: int|
                0 <= i < j < out@.len() ==> #[trigger] out@[i] < #[trigger] out@[j],
        decreases list@.len() - n,
    {
        let x: u32 = list[n];
        let ghost seen = list@.take(n as int);
        let ghost before = out@;
        proof {
            assert(!seen.contains(x)) by {
                if seen.contains(x) {
                    let i = choose|i: int| 0 <= i < seen.len() && seen[i] == x;
                    assert(list@[i] == list@[n as int]);
                }
            }
            assert(!before.contains(x));
        }
        let mut at: usize = out.len();
        while at > 0 && out[at - 1] > x
            invariant
                at <= out@.len(),
                out@ == before,
                forall|i: int| at <= i < out@.len() ==> #[trigger] out@[i] > x,
            ensures
                at <= out@.len(),
                out@ == before,
                forall|i: int| at <= i < out@.len() ==> #[trigger] out@[i] > x,
                at > 0 ==> out@[at - 1] <= x,
            decreases at,
        {
            at = at - 1;
        }
        proof {
            assert forall|i: int| 0 <= i < at implies #[trigger] before[i] < x by {
                assert(before.contains(before[i]));
                if i < at - 1 {
                    assert(before[i] < before[at - 1]);
                }
            }
        }
        out.insert(at, x);
        proof {
            assert(list@.take(n + 1) =~= seen.push(x));
            assert forall|k: u32| #[trigger] out@.contains(k) <==> list@.take(n + 1).contains(k) by {
                if out@.contains(k) {
                    let i = choose|i: int| 0 <= i < out@.len() && out@[i] == k;
                    if i < at {
                        assert(before[i] == k);
                        assert(before.contains(k));
                    } else if i > at {
                        assert(before[i - 1] == k);
                        assert(before.contains(k));
                    }
                    if before.contains(k) {
                        assert(seen.contains(k));
                        let j = choose|j: int| 0 <= j < seen.len() && seen[j] == k;
                        assert(seen.push(x)[j] == k);
                    } else {
                        assert(seen.push(x)[n as int] == k);
                    }
                }
                if list@.take(n + 1).contains(k) {
                    let j = choose|j: int| 0 <= j <= n && seen.push(x)[j] == k;
                    if j < n {
                        assert(seen[j] == k);
                        assert(seen.contains(k));
                        assert(before.contains(k));
                        let i = choose|i: int| 0 <= i < before.len() && before[i] == k;
                        if i < at {
                            assert(out@[i] == k);
                        } else {
                            assert(out@[i + 1] == k);
                        }
                    } else {
                        assert(out@[at as int] == k);
                    }
                }
            }
            assert forall|i: int, j: int| 0 <= i < j < out@.len() implies #[trigger] out@[i]
                < #[trigger] out@[j] by {
                let a = if i < at { i } else { i - 1 };
                let b = if j < at { j } else { j - 1 };
                if i != at && j != at {
                    assert(before[a] < before[b]);
                }
            }
        }
        n = n + 1;
    }
    proof {
        assert(list@.take(n as int) =~= list@);
    }
    out
}

impl GameSession {
    fn attempt(&mut self, action: PendingAction) -> (r: u32)
        requires
            old(self).wf(),
        ensures
            final(self).wf(),
            r == old(self)@.pending.next,
            final(self)@ == with_attempt(old(self)@, action),
    {
        let request_id: u32 = self.pending.next_request_id();
        self.pending.insert(request_id, action);
        if self.mode == GameMode::Remote {
            let list = affected_chunks(action.pos);
            enqueue_all(&mut self.mesh_jobs, &list, MeshPriority::High);
        }
        request_id
    }

    /// Breaks the block that the player looks at, if the player is breaking. `backup` is the cell
    /// that is there now.
    pub fn try_break(
        &mut self,
        input: &InputState,
        now_us: u64,
        cooldown_us: u64,
        hit: Option<BlockHit>,
        backup: MaterialCell,
        player_position: Vec3Bits,
    ) -> (r: Option<Attempt>)
        requires
            old(self).wf(),
        ensures
            final(self).wf(),
            (final(self)@, r) == break_outcome(
                old(self)@,
                *input,
                now_us,
                cooldown_us,
                hit,
                backup,
                player_position,
            ),
            if hit is Some && is_breaking(old(self)@, *input, now_us, cooldown_us) {
                &&& final(self)@ == (GameView {
                    last_break_us: now_us,
                    ..with_attempt(
                        old(self)@,
                        PendingAction { kind: PendingKind::Break, pos: hit->0.pos, backup },
                    )
                })
                &&& r == Some(
                    Attempt {
                        message: ClientMessage::Break {
                            pos: hit->0.pos,
                            request_id: old(self)@.pending.next,
                            input_tick: old(self)@.tick,
                            player_position,
                        },
                        write: written(old(self)@.mode, hit->0.pos, BlockID(BlockID::AIR)),
                    },
                )
            } else {
                &&& final(self)@ == old(self)@
                &&& r is None
            },
    {
        if !input.break_held || now_us < self.last_break_at_us || now_us - self.last_break_at_us
            < cooldown_us {
            return None;
        }
        match hit {
            Some(hit) => {
                let pos = hit.pos;
                let input_tick: u32 = self.local_input_tick;
                let request_id: u32 = self.attempt(
                    PendingAction { kind: PendingKind::Break, pos, backup },
                );
                self.last_break_at_us = now_us;
                let write = if self.mode == GameMode::Remote {
                    Some((pos, BlockID(BlockID::AIR)))
                } else {
                    None
                };
                Some(
                    Attempt {
                        message: ClientMessage::Break {
                            pos,
                            request_id,
                            input_tick,
                            player_position,
                        },
                        write,
                    },
                )
            },
            None => None,
        }
    }

    /// Places a block beside the one that the player looks at, if the player has just asked for
    /// it, does not stand there, and there is nothing yet. `backup` is the cell that is there now.
    pub fn try_place(
        &mut self,
        input: &InputState,
        hit: Option<BlockHit>,
        block: BlockID,
        overlaps_player: bool,
        backup: MaterialCell,
        player_position: Vec3Bits,
    ) -> (r: Option<Attempt>)
        requires
            old(self).wf(),
        ensures
            final(self).wf(),
            (final(self)@, r) == place_outcome(
                old(self)@,
                *input,
                hit,
                block,
                overlaps_player,
                backup,
                player_position,
            ),
            if hit is Some && input.place_just_pressed && !overlaps_player && block::block_of_cell(
                backup,
            ).0 == BlockID::AIR {
                &&& final(self)@ == with_attempt(
                    old(self)@,
                    PendingAction { kind: PendingKind::Place(block), pos: beside(hit->0), backup },
                )
                &&& r == Some(
                    Attempt {
                        message: ClientMessage::Place {
                            pos: beside(hit->0),
                            block,
                            request_id: old(self)@.pending.next,
                            input_tick: old(self)@.tick,
                            player_position,
                        },
                        write: written(old(self)@.mode, beside(hit->0), block),
                    },
                )
            } else {
                &&& final(self)@ == old(self)@
                &&& r is None
            },
    {
        if !input.place_just_pressed || overlaps_player {
            return None;
        }
        match hit {
            Some(hit) => {
                if backup.to_block_id().0 != BlockID::AIR {
                    return None;
                }
                let pos = place_target(hit);
                let input_tick: u32 = self.local_input_tick;
                let request_id: u32 = self.attempt(
                    PendingAction { kind: PendingKind::Place(block), pos, backup },
                );
                let write = if self.mode == GameMode::Remote {
                    Some((pos, block))
                } else {
                    None
                };
                Some(
                    Attempt {
                        message: ClientMessage::Place {
                            pos,
                            block,
                            request_id,
                            input_tick,
                            player_position,
                        },
                        write,
                    },
                )
            },
            None => None,
        }
    }

    /// Asks the host for its clock, if it is time.
    pub fn ping(&mut self, now_us: u64) -> (r: Option<ClientMessage>)
        ensures
            old(self).wf() ==> final(self).wf(),
            if is_ping_due(old(self)@, now_us) {
                &&& r == Some(ClientMessage::Ping { client_time_ms: (now_us / 1000) as u64 })
                &&& final(self)@ == after_ping(old(self)@, now_us)
            } else {
                r is None && final(self)@ == old(self)@
            },
    {
        if self.mode == GameMode::Local || self.entity_id == 0 || now_us < self.last_ping_sent_us
            || now_us - self.last_ping_sent_us < PING_INTERVAL_US {
            return None;
        }
        let client_time_ms: u64 = now_us / 1000;
        self.pending_pings.insert(client_time_ms, now_us);
        if self.pending_pings.len() > MAX_PENDING_PINGS {
            let keys = wide_keys_of(&self.pending_pings);
            let mut oldest: u64 = keys[0];
            let mut i: usize = 1;
            proof {
                assert(keys@.contains(keys@[0]));
            }
            while i < keys.len()
                invariant
                    1 <= i <= keys@.len(),
                    keys@.contains(oldest),
                    forall|k: int| 0 <= k < i ==> oldest <= #[trigger] keys@[k],
                decreases keys@.len() - i,
            {
                if keys[i] < oldest {
                    oldest = keys[i];
                    proof {
                        assert(keys@.contains(keys@[i as int]));
                    }
                }
                i = i + 1;
            }
            proof {
                let s = self.pending_pings@.dom();
                lemma_has_smallest(keys@, s);
                assert(s.contains(oldest));
                assert(keys@.contains(smallest(s)));
                let k = choose|k: int| 0 <= k < keys@.len() && keys@[k] == smallest(s);
                assert(oldest <= keys@[k]);
                assert(oldest == smallest(s));
            }
            self.pending_pings.remove(&oldest);
        }
        self.last_ping_sent_us = now_us;
        Some(ClientMessage::Ping { client_time_ms })
    }

    /// One step of the game's clock: gives the step a number, and keeps the position predicted for
    /// it.
    pub fn logic_step(&mut self, feet_position: Vec3Bits) -> (r: u32)
        ensures
            old(self).wf() ==> final(self).wf(),
            r == prediction::next_id(old(self)@.tick),
            final(self)@ == (GameView {
                tick: r,
                history: prediction::latest(
                    old(self)@.history.push(
                        prediction::InputRecord { tick: r, position: feet_position },
                    ),
                    old(self)@.history_cap as int,
                ),
                ..old(self)@
            }),
    {
        self.local_input_tick = id_after(self.local_input_tick);
        self.input_history.push(self.local_input_tick, feet_position);
        self.local_input_tick
    }

    /// What the host is told of the player's position after some steps; nothing after none, nor
    /// before the host has given the player a number.
    pub fn input_report(&self, steps: u32, position: Vec3Bits, yaw: u32, pitch: u32) -> (r: Option<
        ClientMessage,
    >)
        ensures
            r == (if steps > 0 && self@.me != 0 {
                Some(ClientMessage::PlayerInput { tick: self@.tick, position, yaw, pitch })
            } else {
                None
            }),
    {
        if steps > 0 && self.entity_id != 0 {
            Some(
                ClientMessage::PlayerInput { tick: self.local_input_tick, position, yaw, pitch },
            )
        } else {
            None
        }
    }

    /// What the host is asked for when chunks are missing; nothing when none is.
    pub fn field_request(&self, center: ChunkPos, chunks: Vec<ChunkPos>) -> (r: Option<
        ClientMessage,
    >)
        ensures
            r == (if chunks@.len() > 0 {
                Some(
                    ClientMessage::FieldRequest {
                        center,
                        render_distance: if self@.loader.distance < 0 {
                            0
                        } else {
                            self@.loader.distance as u32
                        },
                        chunks,
                    },
                )
            } else {
                None
            }),
    {
        if chunks.len() == 0 {
            return None;
        }
        let render_distance: u32 = if self.chunk_loader.render_distance < 0 {
            0
        } else {
            self.chunk_loader.render_distance as u32
        };
        Some(ClientMessage::FieldRequest { center, render_distance, chunks })
    }

    /// The players, in the order of their numbers.
    pub fn player_list(&self) -> (r: Vec<PlayerListEntry>)
        ensures
            exists|own: int| is_player_list(r@, self@, own),
    {
        let keys = keys_of(&self.remote_players);
        let ids = sorted(&keys);
        proof {
            assert(self@.players.dom() =~= self.remote_players@.dom());
        }
        let mut out: Vec<PlayerListEntry> = Vec::new();
        let mut placed = false;
        let ghost mut own: int = 0;
        let mut i: usize = 0;
        while i < ids.len()
            invariant
                i <= ids@.len(),
                forall|k: u32| #[trigger]
                    ids@.contains(k) <==> self.remote_players@.dom().contains(k),
                forall|a: int, b: int|
                    0 <= a < b < ids@.len() ==> #[trigger] ids@[a] < #[trigger] ids@[b],
                out@.len() == i + (if placed { 1int } else { 0int }),
                placed ==> 0 <= own < out@.len() && out@[own].entity_id == self@.me
                    && out@[own].display_name@ == self@.name && out@[own].is_me
                    && out@[own].is_host == (self@.me == self@.host),
                placed ==> own < i && ids@[own] >= self@.me,
                !placed ==> forall|k: int| 0 <= k < i ==> #[trigger] ids@[k] < self@.me,
                forall|k: int|
                    0 <= k < out@.len() && (!placed || k != own) ==> {
                        let e = #[trigger] out@[k];
                        let at = if placed && k > own { k - 1 } else { k };
                        &&& e.entity_id == ids@[at]
                        &&& !e.is_me
                        &&& self@.players.contains_key(e.entity_id)
                        &&& e.display_name@ == self@.players[e.entity_id].name
                        &&& e.is_host == (e.entity_id == self@.host)
                        &&& placed ==> (k < own <==> e.entity_id < self@.me)
                    },
            decreases ids@.len() - i,
        {
            let id: u32 = ids[i];
            proof {
                assert(ids@.contains(ids@[i as int]));
            }
            if !placed && id >= self.entity_id {
                proof {
                    own = out@.len() as int;
                }
                out.push(self.own_entry());
                placed = true;
            }
            let display_name = self.player_name(id);
            out.push(
                PlayerListEntry {
                    entity_id: id,
                    display_name,
                    is_host: id == self.host_entity_id,
                    is_me: false,
                },
            );
            i = i + 1;
        }
        if !placed {
            proof {
                own = out@.len() as int;
            }
            out.push(self.own_entry());
        }
        proof {
            assert(keys@.len() == self.remote_players@.dom().len());
            assert(is_player_list(out@, self@, own));
        }
        out
    }

    fn own_entry(&self) -> (r: PlayerListEntry)
        ensures
            r.entity_id == self@.me,
            r.display_name@ == self@.name,
            r.is_me,
            r.is_host == (self@.me == self@.host),
    {
        PlayerListEntry {
            entity_id: self.entity_id,
            display_name: self.display_name.clone(),
            is_host: self.entity_id == self.host_entity_id,
            is_me: true,
        }
    }
}

/// The place beside a block lies one side of it away: from the block to the place it is the
/// direction that the seen side faces, along each axis.
pub proof fn law_a_place_is_beside_the_seen_side(hit: BlockHit)
    requires
        i32::MIN <= hit.pos.x + hit.normal.x <= i32::MAX,
        i32::MIN <= hit.pos.y + hit.normal.y <= i32::MAX,
        i32::MIN <= hit.pos.z + hit.normal.z <= i32::MAX,
    ensures
        beside(hit).x - hit.pos.x == hit.normal.x,
        beside(hit).y - hit.pos.y == hit.normal.y,
        beside(hit).z - hit.pos.z == hit.normal.z,
{
}

/// A block is placed in the cell from which the line of sight came to the block that it hit.
pub proof fn law_a_place_is_where_the_line_came_from(cell: Position, step: Position, axis: Axis)
    requires
        raycast::is_direction(step),
        raycast::coordinate(step, axis) != 0,
        i32::MIN < raycast::coordinate(cell, axis) < i32::MAX,
    ensures
        beside(
            BlockHit {
                pos: raycast::next_cell(cell, step, axis),
                normal: raycast::normal_of(raycast::entered_face(axis, step)),
            },
        ) == cell,
{
}

/// A change that is asked for can be answered: it is kept under the number that it was sent with,
/// with what was there before, and the numbers of earlier requests stand for what they did. The
/// next request has another number.
pub proof fn law_a_request_is_kept_until_it_is_answered(v: GameView, action: PendingAction, id: u32)
    ensures
        ({
            let a = with_attempt(v, action);
            &&& a.pending.open.contains_key(v.pending.next)
            &&& a.pending.open[v.pending.next] == action
            &&& id != v.pending.next ==> a.pending.open.contains_key(id)
                == v.pending.open.contains_key(id)
            &&& id != v.pending.next && v.pending.open.contains_key(id) ==> a.pending.open[id]
                == v.pending.open[id]
            &&& v.pending.next < u32::MAX ==> a.pending.next == v.pending.next + 1
            &&& a.pending.next != 0
        }),
{
}

/// Breaking is asked for at the block that is seen, and nowhere else, while the button is down. The
/// request tells the host where the player stands and which step of the game it is, and what was
/// there can be put back. A guest shows air there at once; the host's own world waits for the host.
pub proof fn law_breaking_removes_the_block_that_is_seen(
    v: GameView,
    input: InputState,
    now_us: u64,
    cooldown_us: u64,
    hit: Option<BlockHit>,
    backup: MaterialCell,
    player_position: Vec3Bits,
)
    ensures
        ({
            let (after, r) = break_outcome(
                v,
                input,
                now_us,
                cooldown_us,
                hit,
                backup,
                player_position,
            );
            match r {
                Some(attempt) => {
                    &&& input.break_held
                    &&& hit matches Some(seen)
                    &&& attempt.message matches ClientMessage::Break {
                        pos,
                        request_id,
                        input_tick,
                        player_position: stands,
                    }
                    &&& pos == seen.pos
                    &&& stands == player_position
                    &&& input_tick == v.tick
                    &&& after.pending.open.contains_key(request_id)
                    &&& after.pending.open[request_id].pos == pos
                    &&& after.pending.open[request_id].backup == backup
                    &&& (v.mode == GameMode::Remote ==> attempt.write == Some((pos, BlockID(0))))
                    &&& (v.mode != GameMode::Remote ==> attempt.write is None)
                },
                None => after == v,
            }
        }),
{
}

/// Blocks are broken no faster than the cooldown allows, and no slower: while the button is down
/// and a block is seen, the next one breaks as soon as the cooldown is over.
pub proof fn law_breaking_waits_for_the_cooldown(
    v: GameView,
    input: InputState,
    first_us: u64,
    second_us: u64,
    cooldown_us: u64,
    hit: Option<BlockHit>,
    backup: MaterialCell,
    player_position: Vec3Bits,
)
    requires
        hit is Some,
        input.break_held,
        first_us <= second_us,
        break_outcome(v, input, first_us, cooldown_us, hit, backup, player_position).1 is Some,
    ensures
        ({
            let after = break_outcome(
                v,
                input,
                first_us,
                cooldown_us,
                hit,
                backup,
                player_position,
            ).0;
            let again = break_outcome(
                after,
                input,
                second_us,
                cooldown_us,
                hit,
                backup,
                player_position,
            ).1;
            again is Some <==> second_us - first_us >= cooldown_us
        }),
{
}

/// A block is placed beside the side that is seen, of the kind that was chosen, once for each
/// press, and never where the player stands or where something else is. A guest shows it at once.
pub proof fn law_placing_fills_the_place_beside(
    v: GameView,
    input: InputState,
    hit: Option<BlockHit>,
    block: BlockID,
    overlaps_player: bool,
    backup: MaterialCell,
    player_position: Vec3Bits,
)
    ensures
        ({
            let (after, r) = place_outcome(
                v,
                input,
                hit,
                block,
                overlaps_player,
                backup,
                player_position,
            );
            match r {
                Some(attempt) => {
                    &&& input.place_just_pressed
                    &&& !overlaps_player
                    &&& block::block_of_cell(backup) == BlockID(0)
                    &&& hit matches Some(seen)
                    &&& attempt.message matches ClientMessage::Place {
                        pos,
                        block: wanted,
                        request_id,
                        input_tick,
                        player_position: stands,
                    }
                    &&& pos == beside(seen)
                    &&& wanted == block
                    &&& stands == player_position
                    &&& input_tick == v.tick
                    &&& after.pending.open.contains_key(request_id)
                    &&& after.pending.open[request_id].pos == pos
                    &&& after.pending.open[request_id].backup == backup
                    &&& (v.mode == GameMode::Remote ==> attempt.write == Some((pos, block)))
                    &&& (v.mode != GameMode::Remote ==> attempt.write is None)
                    &&& after.last_break_us == v.last_break_us
                },
                None => after == v && !(hit is Some && input.place_just_pressed && !overlaps_player
                    && block::block_of_cell(backup) == BlockID(0)),
            }
        }),
{
}

/// Only a guest shows a change ahead of the host's word, and then the chunks around it are meshed
/// again: each of them waits with at least the priority of what is near.
pub proof fn law_a_guest_shows_its_change_at_once(
    v: GameView,
    action: PendingAction,
    q: ChunkPos,
)
    requires
        mesh_jobs::is_orderly(v.jobs),
        chunk_loader::affected(action.pos).contains(q),
    ensures
        v.mode == GameMode::Remote ==> mesh_jobs::waits_by(with_attempt(v, action).jobs, q, 1),
        v.mode != GameMode::Remote ==> with_attempt(v, action).jobs == v.jobs,
{
    game::law_changed_chunks_are_meshed_again(v.jobs, action.pos, q);
}

/// The host is asked for its clock no more often than every five seconds; then it is asked, except
/// by a player who is alone or has no number yet.
pub proof fn law_pings_keep_their_distance(v: GameView, first_us: u64, second_us: u64)
    requires
        v.mode != GameMode::Local,
        v.me != 0,
        first_us <= second_us,
    ensures
        is_ping_due(after_ping(v, first_us), second_us) <==> second_us - first_us >= 5_000_000,
        !is_ping_due(GameView { mode: GameMode::Local, ..v }, second_us),
        !is_ping_due(GameView { me: 0, ..v }, second_us),
{
}

/// The answer to a question for the clock is timed from when the question was asked, as long as
/// the clock does not run back.
pub proof fn law_an_answer_is_timed_from_its_question(
    v: GameView,
    asked_us: u64,
    answered_us: u64,
    server_time_ms: u64,
)
    requires
        v.pings.dom().finite(),
        forall|k: u64| #[trigger] v.pings.contains_key(k) ==> k <= asked_us / 1000,
        asked_us <= answered_us,
    ensures
        ({
            let w = after_ping(v, asked_us);
            let msg = ServerMessage::Pong {
                client_time_ms: (asked_us / 1000) as u64,
                server_time_ms,
            };
            &&& game::message_acts(w, msg, answered_us) == seq![
                Act::PongClock {
                    round_trip_us: (answered_us - asked_us) as u64,
                    server_time_ms,
                },
            ]
            &&& game::message_acts(game::after_message(w, msg, answered_us), msg, answered_us)
                == Seq::<Act>::empty()
        }),
{
    let now = (asked_us / 1000) as u64;
    let all = v.pings.insert(now, asked_us);
    if all.len() > MAX_PENDING_PINGS {
        lemma_listed(all.dom());
        let l = choose|l: Seq<u64>| maps::lists_set(l, all.dom());
        lemma_has_smallest(l, all.dom());
        let m = smallest(all.dom());
        if m == now {
            assert(forall|k: u64| #[trigger] all.dom().contains(k) ==> k == now) by {
                assert forall|k: u64| #[trigger] all.dom().contains(k) implies k == now by {
                    assert(m <= k);
                    if k != now {
                        assert(v.pings.contains_key(k));
                    }
                }
            }
            assert(all.dom() =~= Set::empty().insert(now));
        }
    }
}

/// Of the unanswered questions the latest are kept: one that goes is not later than any that stays,
/// and what stays is as it was.
pub proof fn law_the_oldest_question_goes(pings: Map<u64, u64>, gone: u64, kept: u64)
    requires
        pings.dom().finite(),
        pings.contains_key(gone),
        !kept_pings(pings).contains_key(gone),
        kept_pings(pings).contains_key(kept),
    ensures
        gone < kept,
        pings.contains_key(kept),
        kept_pings(pings)[kept] == pings[kept],
        pings.len() > MAX_PENDING_PINGS,
{
    lemma_listed(pings.dom());
    let l = choose|l: Seq<u64>| maps::lists_set(l, pings.dom());
    lemma_has_smallest(l, pings.dom());
    assert(pings.dom().contains(kept));
}

/// The list of players is in the order of their numbers, and shows every player once: each of the
/// others, and the player.
pub proof fn law_the_player_list_is_in_order(
    list: Seq<PlayerListEntry>,
    v: GameView,
    own: int,
    i: int,
    j: int,
)
    requires
        is_player_list(list, v, own),
        !v.players.contains_key(v.me),
        0 <= i < j < list.len(),
    ensures
        list[i].entity_id < list[j].entity_id,
        list[i].is_me <==> list[i].entity_id == v.me,
        list[j].is_me <==> list[j].entity_id == v.me,
        list[i].is_host <==> list[i].entity_id == v.host,
        !(list[i].is_host && list[j].is_host),
        list.len() == v.players.len() + 1,
        list[i].entity_id != v.me ==> v.players.contains_key(list[i].entity_id)
            && list[i].display_name@ == v.players[list[i].entity_id].name,
        list[i].entity_id == v.me ==> list[i].display_name@ == v.name,
        list[j].entity_id != v.me ==> v.players.contains_key(list[j].entity_id)
            && list[j].display_name@ == v.players[list[j].entity_id].name,
        list[j].entity_id == v.me ==> list[j].display_name@ == v.name,
{
    if i != own {
        assert(v.players.contains_key(list[i].entity_id));
    }
    if j != own {
        assert(v.players.contains_key(list[j].entity_id));
    }
}

/// What stands behind a name tells whether the player is the host and whether it is oneself: no two
/// of the four cases read the same.
pub proof fn law_suffixes_tell_the_roles_apart(h: bool, m: bool, h2: bool, m2: bool)
    ensures
        suffix_text(h, m) == suffix_text(h2, m2) ==> h == h2 && m == m2,
        h ==> suffix_text(h, m).len() >= 7 && suffix_text(h, m)[2] == 'H',
        m ==> suffix_text(h, m).len() >= 6 && suffix_text(h, m)[suffix_text(h, m).len() - 2] == 'u',
        !h && !m ==> suffix_text(h, m) == Seq::<char>::empty(),
{
    reveal_strlit(" (Host, You)");
    reveal_strlit(" (Host)");
    reveal_strlit(" (You)");
    reveal_strlit("");
    assert(" (Host, You)"@.len() == 12);
    assert(" (Host)"@.len() == 7);
    assert(" (You)"@.len() == 6);
}

} // verus!
