//! A stay in a world: what the client knows, and what it makes of the messages of the host.
use std::collections::HashMap;

use vstd::prelude::*;
use vstd::string::*;

use crate::app_state;
use crate::app_state::{effective_render_distance, GameMode};
use crate::block;
use crate::block::{BlockID, MaterialCell};
use crate::chat;
use crate::chat::ChatHistory;
use crate::chunk;
use crate::chunk::{ChunkPos, Position};
use crate::chunk_assembler;
use crate::chunk_assembler::ChunkAssembler;
use crate::chunk_loader;
use crate::chunk_loader::{affected_chunks, ChunkLoader};
use crate::field::ObjectID;
use crate::interp;
use crate::interp::PlayerInterp;
use crate::mesh_jobs;
use crate::mesh_jobs::{MeshJobQueue, MeshPriority};
use crate::prediction;
use crate::prediction::{InputHistory, InputRecord, PendingActions, PendingView};
use crate::protocol::{PlayerEntry, PlayerSnapshot, ServerMessage, Vec3Bits};
use crate::text;
use crate::text::{decimal_text, joined};

verus! {

broadcast use vstd::std_specs::hash::group_hash_axioms;

/// How many predicted positions are kept.
pub const INPUT_HISTORY_CAP: usize = 120;

/// How long a movement of cells is shown, in microseconds.
pub const CELL_MOVE_TIME_US: u64 = 320_000;

/// Another player.
#[derive(Clone, Debug)]
pub struct RemotePlayerState {
    pub display_name: String,
    /// The host's tick of the latest report.
    pub last_seen_tick: u32,
}

/// A cell that moves.
#[derive(Copy, Clone, Debug, PartialEq, Eq, Structural)]
pub struct CellMove {
    pub from: Position,
    pub to: Position,
    pub block: BlockID,
}

/// What the client's caller has to do after a message.
#[allow(inconsistent_fields)]
#[derive(Clone, Debug)]
pub enum GameAction {
    /// Empty the world, which is filled again with what the host sends.
    ClearWorld,
    /// Decode a chunk and put it into the world; then report that it is there.
    LoadField { pos: ChunkPos, bytes: Vec<u8> },
    WriteBlock { pos: Position, block: BlockID },
    WriteCell { pos: Position, cell: MaterialCell },
    /// Show cells on their way.
    Animate { cells: Vec<CellMove> },
    SpawnObject { object_id: ObjectID, cells: Vec<(Position, MaterialCell)> },
    MoveObject { object_id: ObjectID, position: Vec3Bits, velocity: Vec3Bits },
    /// Take up the confirmation of an input in the history, and bring the player's position and the
    /// rest of the history in line with the host's position, given what was predicted for that
    /// input.
    Reconcile { server_position: Vec3Bits, input_tick: u32 },
    /// The host's clock, as told by a report of positions.
    TickClock { server_time_ms: u64 },
    /// The host's clock, as told by an answer that took some time.
    PongClock { round_trip_us: u64, server_time_ms: u64 },
}

/// What the client's caller has to do, as mathematics.
#[allow(inconsistent_fields)]
pub enum Act {
    ClearWorld,
    LoadField { pos: ChunkPos, bytes: Seq<u8> },
    WriteBlock { pos: Position, block: BlockID },
    WriteCell { pos: Position, cell: MaterialCell },
    Animate { cells: Seq<CellMove> },
    SpawnObject { object_id: ObjectID, cells: Seq<(Position, MaterialCell)> },
    MoveObject { object_id: ObjectID, position: Vec3Bits, velocity: Vec3Bits },
    Reconcile { server_position: Vec3Bits, input_tick: u32 },
    TickClock { server_time_ms: u64 },
    PongClock { round_trip_us: u64, server_time_ms: u64 },
}

pub open spec fn act_of(a: GameAction) -> Act {
    match a {
        GameAction::ClearWorld => Act::ClearWorld,
        GameAction::LoadField { pos, bytes } => Act::LoadField { pos, bytes: bytes@ },
        GameAction::WriteBlock { pos, block } => Act::WriteBlock { pos, block },
        GameAction::WriteCell { pos, cell } => Act::WriteCell { pos, cell },
        GameAction::Animate { cells } => Act::Animate { cells: cells@ },
        GameAction::SpawnObject { object_id, cells } => Act::SpawnObject {
            object_id,
            cells: cells@,
        },
        GameAction::MoveObject { object_id, position, velocity } => Act::MoveObject {
            object_id,
            position,
            velocity,
        },
        GameAction::Reconcile { server_position, input_tick } => Act::Reconcile {
            server_position,
            input_tick,
        },
        GameAction::TickClock { server_time_ms } => Act::TickClock { server_time_ms },
        GameAction::PongClock { round_trip_us, server_time_ms } => Act::PongClock {
            round_trip_us,
            server_time_ms,
        },
    }
}

pub open spec fn acts_of(s: Seq<GameAction>) -> Seq<Act> {
    Seq::new(s.len(), |i: int| act_of(s[i]))
}

/// A stay in a world.
pub struct GameSession {
    pub mode: GameMode,
    /// The player's own number; zero until the host has told it.
    pub entity_id: u32,
    pub display_name: String,
    pub host_entity_id: u32,
    /// How far the host lets the others see.
    pub host_render_distance: u32,
    /// How far the player wants to see.
    pub render_distance: u32,
    pub remote_players: HashMap<u32, RemotePlayerState>,
    pub chunk_assembler: ChunkAssembler,
    pub mesh_jobs: MeshJobQueue,
    pub chunk_loader: ChunkLoader,
    pub pending: PendingActions,
    pub chat: ChatHistory,
    pub interp: PlayerInterp,
    pub input_history: InputHistory,
    /// When each unanswered ping was sent.
    pub pending_pings: HashMap<u64, u64>,
    pub last_ping_sent_us: u64,
    pub local_input_tick: u32,
    pub last_break_at_us: u64,
}

/// Another player, as mathematics.
#[verifier::ext_equal]
pub struct PlayerModel {
    pub name: Seq<char>,
    pub seen: u32,
}

/// The chunks that are kept, as mathematics.
#[verifier::ext_equal]
pub struct LoaderView {
    pub distance: i32,
    pub buffer: i32,
    pub loaded: Set<u64>,
    pub center: Option<ChunkPos>,
    pub requested: Set<u64>,
}

/// A stay in a world, as mathematics.
#[verifier::ext_equal]
pub struct GameView {
    pub mode: GameMode,
    pub me: u32,
    pub name: Seq<char>,
    pub host: u32,
    pub host_distance: u32,
    pub distance: u32,
    pub players: Map<u32, PlayerModel>,
    pub parts: Map<u64, chunk_assembler::Assembly>,
    pub jobs: Seq<Seq<ChunkPos>>,
    pub loader: LoaderView,
    pub pending: PendingView,
    pub chat: Seq<chat::ChatLine>,
    pub chat_cap: usize,
    pub line: Seq<char>,
    pub poses: Map<u32, Seq<interp::Sample>>,
    pub history: Seq<InputRecord>,
    pub history_cap: usize,
    pub pings: Map<u64, u64>,
    pub last_ping_us: u64,
    pub tick: u32,
    pub last_break_us: u64,
}

pub open spec fn player_model(p: RemotePlayerState) -> PlayerModel {
    PlayerModel { name: p.display_name@, seen: p.last_seen_tick }
}

pub open spec fn loader_view(l: ChunkLoader) -> LoaderView {
    LoaderView {
        distance: l.render_distance,
        buffer: l.unload_buffer,
        loaded: l.loaded@,
        center: l.last_center,
        requested: l.requested@,
    }
}

impl View for GameSession {
    type V = GameView;

    open spec fn view(&self) -> GameView {
        GameView {
            mode: self.mode,
            me: self.entity_id,
            name: self.display_name@,
            host: self.host_entity_id,
            host_distance: self.host_render_distance,
            distance: self.render_distance,
            players: self.remote_players@.map_values(|p: RemotePlayerState| player_model(p)),
            parts: self.chunk_assembler@,
            jobs: self.mesh_jobs@,
            loader: loader_view(self.chunk_loader),
            pending: self.pending@,
            chat: self.chat@,
            chat_cap: self.chat.capacity(),
            line: self.chat.line(),
            poses: self.interp@,
            history: self.input_history@,
            history_cap: self.input_history.capacity(),
            pings: self.pending_pings@,
            last_ping_us: self.last_ping_sent_us,
            tick: self.local_input_tick,
            last_break_us: self.last_break_at_us,
        }
    }
}

/// Chunks shown up to another distance.
pub open spec fn with_distance(l: LoaderView, distance: u32) -> LoaderView {
    let wanted = chunk::wrap_i32(distance as int);
    LoaderView {
        distance: wanted,
        center: if wanted == l.distance {
            l.center
        } else {
            None
        },
        ..l
    }
}

/// The stay after the player has chosen how far to see.
pub open spec fn with_wanted_distance(v: GameView, distance: u32) -> GameView {
    GameView {
        distance,
        loader: with_distance(
            v.loader,
            app_state::effective_distance(v.mode, distance, v.host_distance),
        ),
        host_distance: if v.mode == GameMode::Remote {
            v.host_distance
        } else {
            distance
        },
        ..v
    }
}

/// The stay after the host has told how far the others may see.
pub open spec fn with_host_distance(v: GameView, host_distance: u32) -> GameView {
    let allowed = if host_distance == 0 {
        1
    } else {
        host_distance
    };
    GameView {
        host_distance: if v.mode == GameMode::Remote {
            allowed
        } else {
            v.distance
        },
        loader: with_distance(
            v.loader,
            app_state::effective_distance(v.mode, v.distance, allowed),
        ),
        ..v
    }
}

/// The other players, with one more unless already known.
pub open spec fn with_player(players: Map<u32, PlayerModel>, id: u32, name: Seq<char>) -> Map<
    u32,
    PlayerModel,
> {
    if players.contains_key(id) {
        players
    } else {
        players.insert(id, PlayerModel { name, seen: 0 })
    }
}

/// The other players, with those of a list.
pub open spec fn with_roster(players: Map<u32, PlayerModel>, list: Seq<PlayerEntry>, me: u32) -> Map<
    u32,
    PlayerModel,
>
    decreases list.len(),
{
    if list.len() == 0 {
        players
    } else {
        let rest = with_roster(players, list.drop_last(), me);
        if list.last().entity_id == me {
            rest
        } else {
            with_player(rest, list.last().entity_id, list.last().display_name@)
        }
    }
}

/// The queues after chunks were asked for, all with the same urgency.
pub open spec fn queued_all(jobs: Seq<Seq<ChunkPos>>, list: Seq<ChunkPos>, p: MeshPriority) -> Seq<
    Seq<ChunkPos>,
>
    decreases list.len(),
{
    if list.len() == 0 {
        jobs
    } else {
        mesh_jobs::after_enqueue(
            queued_all(jobs, list.drop_last(), p),
            list.last(),
            mesh_jobs::rank(p),
        )
    }
}

/// The queues after a block has changed.
pub open spec fn remeshed_at(jobs: Seq<Seq<ChunkPos>>, pos: Position) -> Seq<Seq<ChunkPos>> {
    queued_all(jobs, chunk_loader::affected(pos), MeshPriority::High)
}

/// A chunk and the eight around it, line by line.
pub open spec fn surroundings(pos: ChunkPos) -> Seq<ChunkPos> {
    seq![
        chunk::moved(pos, -1, -1),
        chunk::moved(pos, 0, -1),
        chunk::moved(pos, 1, -1),
        chunk::moved(pos, -1, 0),
        chunk::moved(pos, 0, 0),
        chunk::moved(pos, 1, 0),
        chunk::moved(pos, -1, 1),
        chunk::moved(pos, 0, 1),
        chunk::moved(pos, 1, 1),
    ]
}

/// The queues after the cells of a list have changed.
pub open spec fn remeshed_for(
    jobs: Seq<Seq<ChunkPos>>,
    deltas: Seq<(Position, MaterialCell)>,
) -> Seq<Seq<ChunkPos>>
    decreases deltas.len(),
{
    if deltas.len() == 0 {
        jobs
    } else {
        remeshed_at(remeshed_for(jobs, deltas.drop_last()), deltas.last().0)
    }
}

/// The blocks to be written for changed cells: a guest writes them, to others the world is its own.
pub open spec fn writes_for(mode: GameMode, deltas: Seq<(Position, MaterialCell)>) -> Seq<Act> {
    if mode == GameMode::Remote {
        Seq::new(
            deltas.len(),
            |i: int|
                Act::WriteBlock { pos: deltas[i].0, block: block::block_of_cell(deltas[i].1) },
        )
    } else {
        Seq::empty()
    }
}

/// The places of a list that have become empty, in their order.
pub open spec fn emptied(deltas: Seq<(Position, MaterialCell)>) -> Seq<Position>
    decreases deltas.len(),
{
    if deltas.len() == 0 {
        Seq::empty()
    } else {
        let rest = emptied(deltas.drop_last());
        if deltas.last().1.holds_nothing() {
            rest.push(deltas.last().0)
        } else {
            rest
        }
    }
}

/// The places of a list that hold something now, with what they hold, in their order.
pub open spec fn filled(deltas: Seq<(Position, MaterialCell)>) -> Seq<(Position, BlockID)>
    decreases deltas.len(),
{
    if deltas.len() == 0 {
        Seq::empty()
    } else {
        let rest = filled(deltas.drop_last());
        let block = block::block_of_cell(deltas.last().1);
        if block.0 != BlockID::AIR {
            rest.push((deltas.last().0, block))
        } else {
            rest
        }
    }
}

/// The movement that changed cells show: each emptied place to a filled one. Without as many of
/// the one as of the other there is nothing to show.
pub open spec fn moves_of(deltas: Seq<(Position, MaterialCell)>) -> Option<Seq<CellMove>> {
    let from = emptied(deltas);
    let to = filled(deltas);
    if from.len() == 0 || from.len() != to.len() {
        None
    } else {
        Some(
            Seq::new(
                from.len(),
                |i: int| CellMove { from: from[i], to: to[i].0, block: to[i].1 },
            ),
        )
    }
}

/// What a body that has come to rest asks for.
pub open spec fn project_acts(mode: GameMode, deltas: Seq<(Position, MaterialCell)>) -> Seq<Act> {
    (match moves_of(deltas) {
        Some(cells) => seq![Act::Animate { cells }],
        None => Seq::empty(),
    }) + writes_for(mode, deltas)
}

/// The queues after several bodies have come to rest.
pub open spec fn remeshed_for_all(
    jobs: Seq<Seq<ChunkPos>>,
    list: Seq<(ObjectID, Vec<(Position, MaterialCell)>)>,
) -> Seq<Seq<ChunkPos>>
    decreases list.len(),
{
    if list.len() == 0 {
        jobs
    } else {
        remeshed_for(remeshed_for_all(jobs, list.drop_last()), list.last().1@)
    }
}

/// What several bodies that have come to rest ask for.
pub open spec fn project_all_acts(
    mode: GameMode,
    list: Seq<(ObjectID, Vec<(Position, MaterialCell)>)>,
) -> Seq<Act>
    decreases list.len(),
{
    if list.len() == 0 {
        Seq::empty()
    } else {
        project_all_acts(mode, list.drop_last()) + project_acts(mode, list.last().1@)
    }
}

/// The stay after one reported position. Another player's is kept to draw the movement; with one's
/// own it is left to the caller to bring the prediction in line.
pub open spec fn after_snapshot(v: GameView, snap: PlayerSnapshot, tick: u32, time_ms: u64) -> GameView {
    if snap.entity_id == v.me {
        v
    } else {
        GameView {
            poses: v.poses.insert(
                snap.entity_id,
                interp::with_sample(
                    interp::samples_of(v.poses, snap.entity_id),
                    interp::Sample {
                        server_time_ms: time_ms,
                        position: snap.position,
                        yaw: snap.yaw,
                        pitch: snap.pitch,
                    },
                ),
            ),
            players: if v.players.contains_key(snap.entity_id) {
                v.players.insert(
                    snap.entity_id,
                    PlayerModel { name: v.players[snap.entity_id].name, seen: tick },
                )
            } else {
                v.players
            },
            ..v
        }
    }
}

/// The stay after a list of reported positions.
pub open spec fn after_snapshots(v: GameView, snaps: Seq<PlayerSnapshot>, tick: u32, time_ms: u64) -> GameView
    decreases snaps.len(),
{
    if snaps.len() == 0 {
        v
    } else {
        after_snapshot(after_snapshots(v, snaps.drop_last(), tick, time_ms), snaps.last(), tick, time_ms)
    }
}

/// What a list of reported positions asks for: one step for each report of the player's own.
pub open spec fn snapshot_acts(me: u32, snaps: Seq<PlayerSnapshot>) -> Seq<Act>
    decreases snaps.len(),
{
    if snaps.len() == 0 {
        Seq::empty()
    } else {
        let rest = snapshot_acts(me, snaps.drop_last());
        if snaps.last().entity_id == me {
            rest.push(
                Act::Reconcile {
                    server_position: snaps.last().position,
                    input_tick: snaps.last().last_input_tick,
                },
            )
        } else {
            rest
        }
    }
}

/// The name of a player who may be unknown.
pub open spec fn name_of(players: Map<u32, PlayerModel>, id: u32) -> Seq<char> {
    if players.contains_key(id) {
        players[id].name
    } else {
        "Player "@ + text::decimal(id as nat)
    }
}

/// The stay after a note of the game itself.
pub open spec fn with_note(v: GameView, content: Seq<char>, now_us: u64) -> GameView {
    GameView {
        chat: chat::with_message(
            v.chat,
            v.chat_cap as int,
            chat::ChatLine { from: None, content, at_us: now_us },
        ),
        ..v
    }
}

/// The difference of two times; zero where the later one is not later.
pub open spec fn time_between(from_us: u64, to_us: u64) -> u64 {
    if to_us >= from_us {
        (to_us - from_us) as u64
    } else {
        0
    }
}

/// The stay after a message of the host.
pub open spec fn after_message(v: GameView, msg: ServerMessage, now_us: u64) -> GameView {
    match msg {
        ServerMessage::Welcome {
            entity_id,
            host_entity_id,
            host_render_distance,
            players,
            ..
        } => {
            let w = with_host_distance(v, host_render_distance);
            GameView {
                me: entity_id,
                host: host_entity_id,
                players: with_roster(v.players, players@, entity_id),
                ..w
            }
        },
        ServerMessage::HostSettings { render_distance } => with_host_distance(v, render_distance),
        ServerMessage::FieldSnapshot { pos, frag_index, frag_total, payload } => GameView {
            parts: chunk_assembler::after_ingest(
                v.parts,
                chunk::chunk_key(pos),
                frag_index,
                frag_total,
                payload@,
            ),
            ..v
        },
        ServerMessage::FieldDelta { pos, .. } => GameView {
            jobs: remeshed_at(v.jobs, pos),
            ..v
        },
        ServerMessage::FreeObjectProject { deltas, .. } => GameView {
            jobs: remeshed_for(v.jobs, deltas@),
            ..v
        },
        ServerMessage::FreeObjectProjectBatch { projections } => GameView {
            jobs: remeshed_for_all(v.jobs, projections@),
            ..v
        },
        ServerMessage::ActionAck { request_id, accepted, .. } => GameView {
            pending: PendingView { open: v.pending.open.remove(request_id), ..v.pending },
            jobs: match prediction::answer(v.pending.open, request_id, accepted) {
                Some(action) => if v.mode == GameMode::Remote {
                    remeshed_at(v.jobs, action.pos)
                } else {
                    v.jobs
                },
                None => v.jobs,
            },
            ..v
        },
        ServerMessage::PlayerTick { tick, players, server_time_ms } => after_snapshots(
            v,
            players@,
            tick,
            server_time_ms,
        ),
        ServerMessage::PeerJoined { entity_id, display_name } => with_note(
            GameView { players: with_player(v.players, entity_id, display_name@), ..v },
            display_name@ + " joined the room"@,
            now_us,
        ),
        ServerMessage::PeerLeft { entity_id } => with_note(
            GameView {
                players: v.players.remove(entity_id),
                poses: v.poses.remove(entity_id),
                ..v
            },
            name_of(v.players, entity_id) + " left the room"@,
            now_us,
        ),
        ServerMessage::Chat { from, content } => GameView {
            chat: chat::with_message(
                v.chat,
                v.chat_cap as int,
                chat::ChatLine {
                    from: Some(
                        (
                            from,
                            if from == v.me {
                                v.name
                            } else {
                                name_of(v.players, from)
                            },
                        ),
                    ),
                    content: content@,
                    at_us: now_us,
                },
            ),
            ..v
        },
        ServerMessage::Pong { client_time_ms, .. } => GameView {
            pings: v.pings.remove(client_time_ms),
            ..v
        },
        _ => v,
    }
}

/// What a message of the host asks for.
pub open spec fn message_acts(v: GameView, msg: ServerMessage, now_us: u64) -> Seq<Act> {
    match msg {
        ServerMessage::Welcome { .. } => if v.mode == GameMode::Remote {
            seq![Act::ClearWorld]
        } else {
            Seq::empty()
        },
        ServerMessage::FieldSnapshot { pos, frag_index, frag_total, payload } =>
            match chunk_assembler::ingest_result(
                v.parts,
                chunk::chunk_key(pos),
                frag_index,
                frag_total,
                payload@,
            ) {
                Some(bytes) => seq![Act::LoadField { pos, bytes }],
                None => Seq::empty(),
            },
        ServerMessage::FieldDelta { pos, cell } => if v.mode == GameMode::Remote {
            seq![Act::WriteBlock { pos, block: block::block_of_cell(cell) }]
        } else {
            Seq::empty()
        },
        ServerMessage::FreeObjectSpawn { object_id, cells } => seq![
            Act::SpawnObject { object_id, cells: cells@ },
        ],
        ServerMessage::FreeObjectSpawnBatch { spawns } => Seq::new(
            spawns@.len(),
            |i: int| Act::SpawnObject { object_id: spawns@[i].0, cells: spawns@[i].1@ },
        ),
        ServerMessage::FreeObjectState { object_id, position, velocity } => seq![
            Act::MoveObject { object_id, position, velocity },
        ],
        ServerMessage::FreeObjectStateBatch { states } => Seq::new(
            states@.len(),
            |i: int|
                Act::MoveObject {
                    object_id: states@[i].0,
                    position: states@[i].1,
                    velocity: states@[i].2,
                },
        ),
        ServerMessage::FreeObjectProject { deltas, .. } => project_acts(v.mode, deltas@),
        ServerMessage::FreeObjectProjectBatch { projections } => project_all_acts(
            v.mode,
            projections@,
        ),
        ServerMessage::ActionAck { request_id, accepted, .. } => match prediction::answer(
            v.pending.open,
            request_id,
            accepted,
        ) {
            Some(action) => if v.mode == GameMode::Remote {
                seq![Act::WriteCell { pos: action.pos, cell: action.backup }]
            } else {
                Seq::empty()
            },
            None => Seq::empty(),
        },
        ServerMessage::PlayerTick { tick, players, server_time_ms } => (if v.mode
            == GameMode::Local {
            Seq::empty()
        } else {
            seq![Act::TickClock { server_time_ms }]
        }) + snapshot_acts(v.me, players@),
        ServerMessage::Pong { client_time_ms, server_time_ms } => if v.pings.contains_key(
            client_time_ms,
        ) {
            seq![
                Act::PongClock {
                    round_trip_us: time_between(v.pings[client_time_ms], now_us),
                    server_time_ms,
                },
            ]
        } else {
            Seq::empty()
        },
        _ => Seq::empty(),
    }
}

/// The stay after a chunk was put into the world: it counts as here, and it and the chunks around
/// it are meshed again.
pub open spec fn after_field(v: GameView, pos: ChunkPos) -> GameView {
    GameView {
        loader: LoaderView {
            loaded: v.loader.loaded.insert(chunk::chunk_key(pos)),
            requested: v.loader.requested.remove(chunk::chunk_key(pos)),
            ..v.loader
        },
        jobs: queued_all(v.jobs, surroundings(pos), MeshPriority::High),
        ..v
    }
}

/// Asks for the chunks of a list to be meshed.
pub fn enqueue_all(jobs: &mut MeshJobQueue, list: &Vec<ChunkPos>, priority: MeshPriority)
    requires
        old(jobs).wf(),
    ensures
        final(jobs).wf(),
        final(jobs)@ == queued_all(old(jobs)@, list@, priority),
{
    let ghost before = jobs@;
    let mut i: usize = 0;
    proof {
        assert(list@.take(0) =~= Seq::empty());
    }
    while i < list.len()
        invariant
            i <= list@.len(),
            jobs.wf(),
            jobs@ == queued_all(before, list@.take(i as int), priority),
        decreases list@.len() - i,
    {
        jobs.enqueue(list[i], priority);
        proof {
            assert(list@.take(i + 1).drop_last() =~= list@.take(i as int));
        }
        i = i + 1;
    }
    proof {
        assert(list@.take(i as int) =~= list@);
    }
}

/// The movement that changed cells show.
pub fn cell_moves(deltas: &Vec<(Position, MaterialCell)>) -> (r: Option<Vec<CellMove>>)
    ensures
        match r {
            Some(cells) => moves_of(deltas@) == Some(cells@),
            None => moves_of(deltas@) is None,
        },
{
    let mut from: Vec<Position> = Vec::new();
    let mut to: Vec<(Position, BlockID)> = Vec::new();
    let mut i: usize = 0;
    proof {
        assert(deltas@.take(0) =~= Seq::empty());
    }
    while i < deltas.len()
        invariant
            i <= deltas@.len(),
            from@ == emptied(deltas@.take(i as int)),
            to@ == filled(deltas@.take(i as int)),
        decreases deltas@.len() - i,
    {
        let (pos, cell) = deltas[i];
        proof {
            assert(deltas@.take(i + 1).drop_last() =~= deltas@.take(i as int));
        }
        if cell.is_empty() {
            from.push(pos);
        }
        let block = cell.to_block_id();
        if block.0 != BlockID::AIR {
            to.push((pos, block));
        }
        i = i + 1;
    }
    proof {
        assert(deltas@.take(i as int) =~= deltas@);
    }
    if from.len() == 0 || from.len() != to.len() {
        return None;
    }
    let mut cells: Vec<CellMove> = Vec::new();
    let mut k: usize = 0;
    while k < from.len()
        invariant
            k <= from@.len(),
            from@.len() == to@.len(),
            cells@.len() == k,
            forall|j: int|
                0 <= j < k ==> #[trigger] cells@[j] == (CellMove {
                    from: from@[j],
                    to: to@[j].0,
                    block: to@[j].1,
                }),
        decreases from@.len() - k,
    {
        cells.push(CellMove { from: from[k], to: to[k].0, block: to[k].1 });
        k = k + 1;
    }
    proof {
        assert(cells@ =~= moves_of(deltas@)->0);
    }
    Some(cells)
}

proof fn lemma_acts_push(s: Seq<GameAction>, a: GameAction)
    ensures
        acts_of(s.push(a)) == acts_of(s).push(act_of(a)),
{
    assert(acts_of(s.push(a)) =~= acts_of(s).push(act_of(a)));
}

impl GameSession {
    /// The parts are well-formed, and the distance that the player wants can be counted with.
    pub open spec fn wf(self) -> bool {
        &&& self.mesh_jobs.wf()
        &&& self.chunk_loader.wf()
        &&& self.render_distance < 0x4000_0000
    }

    /// A stay that begins. Who plays it is known at once, except to a guest.
    pub fn new(mode: GameMode, display_name: String, render_distance: u32) -> (r: GameSession)
        requires
            render_distance < 0x4000_0000,
        ensures
            r.wf(),
            r@ == (GameView {
                mode,
                me: 0,
                name: display_name@,
                host: 0,
                host_distance: 0,
                distance: render_distance,
                players: Map::empty(),
                parts: Map::empty(),
                jobs: Seq::new(4, |i: int| Seq::<ChunkPos>::empty()),
                loader: LoaderView {
                    distance: render_distance as i32,
                    buffer: 3,
                    loaded: Set::empty(),
                    center: None,
                    requested: Set::empty(),
                },
                pending: PendingView { open: Map::empty(), next: 1 },
                chat: Seq::empty(),
                chat_cap: chat::CHAT_HISTORY_CAP,
                line: Seq::empty(),
                poses: Map::empty(),
                history: Seq::empty(),
                history_cap: INPUT_HISTORY_CAP,
                pings: Map::empty(),
                last_ping_us: 0,
                tick: 0,
                last_break_us: 0,
            }),
    {
        let r = GameSession {
            mode,
            entity_id: 0,
            display_name,
            host_entity_id: 0,
            host_render_distance: 0,
            render_distance,
            remote_players: HashMap::new(),
            chunk_assembler: ChunkAssembler::new(),
            mesh_jobs: MeshJobQueue::new(),
            chunk_loader: ChunkLoader::new(render_distance),
            pending: PendingActions::new(),
            chat: ChatHistory::default(),
            interp: PlayerInterp::new(),
            input_history: InputHistory::new(INPUT_HISTORY_CAP),
            pending_pings: HashMap::new(),
            last_ping_sent_us: 0,
            local_input_tick: 0,
            last_break_at_us: 0,
        };
        proof {
            assert(r@.players =~= Map::empty());
        }
        r
    }

    /// The player keeps the world, and so is the host.
    pub fn set_own_entity(&mut self, entity_id: u32)
        ensures
            final(self)@ == (GameView {
                me: entity_id,
                host: entity_id,
                host_distance: old(self)@.distance,
                ..old(self)@
            }),
            old(self).wf() ==> final(self).wf(),
    {
        self.entity_id = entity_id;
        self.host_entity_id = entity_id;
        self.host_render_distance = self.render_distance;
    }

    /// Counts the chunks that the host sends to a guest by itself as asked for: those around the
    /// spawn point, as far as they are in sight.
    pub fn expect_bootstrap(&mut self, spawn: ChunkPos, initial_radius: i32)
        requires
            old(self).wf(),
            chunk_loader::in_world(spawn),
            chunk_loader::is_distance(initial_radius as int),
        ensures
            final(self).wf(),
            final(self)@ == (GameView {
                loader: LoaderView {
                    requested: chunk_loader::with_keys(
                        old(self)@.loader.requested,
                        chunk_loader::square(
                            spawn,
                            if old(self)@.loader.distance < initial_radius {
                                old(self)@.loader.distance as int
                            } else {
                                initial_radius as int
                            },
                        ),
                    ),
                    ..old(self)@.loader
                },
                ..old(self)@
            }),
    {
        let r: i32 = if self.chunk_loader.render_distance < initial_radius {
            self.chunk_loader.render_distance
        } else {
            initial_radius
        };
        self.chunk_loader.mark_requested_square(spawn, r);
    }

    /// How far chunks are shown.
    pub fn effective_render_distance(&self) -> (r: u32)
        ensures
            r == app_state::effective_distance(
                self@.mode,
                self@.distance,
                self@.host_distance,
            ),
    {
        effective_render_distance(self.mode, self.render_distance, self.host_render_distance)
    }

    /// Takes up how far the player wants to see.
    pub fn set_wanted_distance(&mut self, render_distance: u32)
        requires
            old(self).wf(),
            render_distance < 0x4000_0000,
        ensures
            final(self).wf(),
            final(self)@ == with_wanted_distance(old(self)@, render_distance),
            final(self)@ == (GameView {
                distance: render_distance,
                loader: with_distance(
                    old(self)@.loader,
                    app_state::effective_distance(
                        old(self)@.mode,
                        render_distance,
                        old(self)@.host_distance,
                    ),
                ),
                host_distance: if old(self)@.mode == GameMode::Remote {
                    old(self)@.host_distance
                } else {
                    render_distance
                },
                ..old(self)@
            }),
    {
        self.render_distance = render_distance;
        let shown: u32 = self.effective_render_distance();
        self.chunk_loader.set_render_distance(shown);
        if self.mode != GameMode::Remote {
            self.host_render_distance = render_distance;
        }
    }

    fn apply_host_render_distance(&mut self, host_render_distance: u32)
        requires
            old(self).wf(),
        ensures
            final(self).wf(),
            final(self)@ == with_host_distance(old(self)@, host_render_distance),
    {
        let allowed: u32 = if host_render_distance == 0 {
            1
        } else {
            host_render_distance
        };
        let shown: u32 = effective_render_distance(self.mode, self.render_distance, allowed);
        self.chunk_loader.set_render_distance(shown);
        if self.mode == GameMode::Remote {
            self.host_render_distance = allowed;
        } else {
            self.host_render_distance = self.render_distance;
        }
    }

    fn add_player(&mut self, entity_id: u32, display_name: String)
        ensures
            final(self)@ == (GameView {
                players: with_player(old(self)@.players, entity_id, display_name@),
                ..old(self)@
            }),
            old(self).wf() ==> final(self).wf(),
    {
        let ghost before = self@;
        let ghost name = display_name@;
        if !self.remote_players.contains_key(&entity_id) {
            self.remote_players.insert(
                entity_id,
                RemotePlayerState { display_name, last_seen_tick: 0 },
            );
        }
        proof {
            assert(self@.players =~= with_player(before.players, entity_id, name));
        }
    }

    fn add_roster(&mut self, players: &Vec<PlayerEntry>, me: u32)
        ensures
            final(self)@ == (GameView {
                players: with_roster(old(self)@.players, players@, me),
                ..old(self)@
            }),
            old(self).wf() ==> final(self).wf(),
    {
        let ghost before = *self;
        let mut i: usize = 0;
        proof {
            assert(players@.take(0) =~= Seq::empty());
        }
        while i < players.len()
            invariant
                i <= players@.len(),
                self@ == (GameView {
                    players: with_roster(before@.players, players@.take(i as int), me),
                    ..before@
                }),
                before.wf() ==> self.wf(),
            decreases players@.len() - i,
        {
            proof {
                assert(players@.take(i + 1).drop_last() =~= players@.take(i as int));
            }
            let id: u32 = players[i].entity_id;
            if id != me {
                self.add_player(id, players[i].display_name.clone());
            }
            i = i + 1;
        }
        proof {
            assert(players@.take(i as int) =~= players@);
        }
    }

    /// The name of a player who may be unknown.
    pub fn player_name(&self, entity_id: u32) -> (r: String)
        ensures
            r@ == name_of(self@.players, entity_id),
    {
        match self.remote_players.get(&entity_id) {
            Some(p) => p.display_name.clone(),
            None => joined("Player ", decimal_text(entity_id as u64).as_str()),
        }
    }

    fn remesh_at(&mut self, pos: Position)
        requires
            old(self).wf(),
        ensures
            final(self).wf(),
            final(self)@ == (GameView { jobs: remeshed_at(old(self)@.jobs, pos), ..old(self)@ }),
    {
        let list = affected_chunks(pos);
        enqueue_all(&mut self.mesh_jobs, &list, MeshPriority::High);
    }

    /// A chunk has been put into the world.
    pub fn field_loaded(&mut self, pos: ChunkPos)
        requires
            old(self).wf(),
        ensures
            final(self).wf(),
            final(self)@ == after_field(old(self)@, pos),
    {
        self.chunk_loader.mark_loaded(pos);
        let mut list: Vec<ChunkPos> = Vec::new();
        list.push(pos.offset(-1, -1));
        list.push(pos.offset(0, -1));
        list.push(pos.offset(1, -1));
        list.push(pos.offset(-1, 0));
        list.push(pos.offset(0, 0));
        list.push(pos.offset(1, 0));
        list.push(pos.offset(-1, 1));
        list.push(pos.offset(0, 1));
        list.push(pos.offset(1, 1));
        proof {
            assert(list@ =~= surroundings(pos));
        }
        enqueue_all(&mut self.mesh_jobs, &list, MeshPriority::High);
    }

    /// A body has come to rest.
    fn project(&mut self, deltas: &Vec<(Position, MaterialCell)>, out: &mut Vec<GameAction>)
        requires
            old(self).wf(),
        ensures
            final(self).wf(),
            final(self)@ == (GameView {
                jobs: remeshed_for(old(self)@.jobs, deltas@),
                ..old(self)@
            }),
            acts_of(final(out)@) == acts_of(old(out)@) + project_acts(old(self)@.mode, deltas@),
    {
        let ghost before = self@;
        let ghost start = acts_of(out@);
        match cell_moves(deltas) {
            Some(cells) => {
                out.push(GameAction::Animate { cells });
                proof {
                    lemma_acts_push(old(out)@, GameAction::Animate { cells });
                }
            },
            None => {},
        }
        let ghost shown = acts_of(out@);
        proof {
            assert(shown =~= start + (match moves_of(deltas@) {
                Some(cells) => seq![Act::Animate { cells }],
                None => Seq::empty(),
            }));
        }
        let mut i: usize = 0;
        proof {
            assert(deltas@.take(0) =~= Seq::empty());
            assert(shown + writes_for(before.mode, deltas@.take(0)) =~= shown);
        }
        while i < deltas.len()
            invariant
                i <= deltas@.len(),
                self.wf(),
                self@ == (GameView {
                    jobs: remeshed_for(before.jobs, deltas@.take(i as int)),
                    ..before
                }),
                acts_of(out@) == shown + writes_for(before.mode, deltas@.take(i as int)),
            decreases deltas@.len() - i,
        {
            let (pos, cell) = deltas[i];
            let ghost earlier = out@;
            proof {
                assert(deltas@.take(i + 1).drop_last() =~= deltas@.take(i as int));
            }
            let block = cell.to_block_id();
            if self.mode == GameMode::Remote {
                out.push(GameAction::WriteBlock { pos, block });
                proof {
                    lemma_acts_push(earlier, GameAction::WriteBlock { pos, block });
                    assert(acts_of(out@) =~= shown + writes_for(
                        before.mode,
                        deltas@.take(i + 1),
                    ));
                }
            }
            self.remesh_at(pos);
            i = i + 1;
        }
        proof {
            assert(deltas@.take(i as int) =~= deltas@);
            assert(acts_of(out@) =~= start + project_acts(before.mode, deltas@));
        }
    }

    fn project_all(
        &mut self,
        list: &Vec<(ObjectID, Vec<(Position, MaterialCell)>)>,
        out: &mut Vec<GameAction>,
    )
        requires
            old(self).wf(),
        ensures
            final(self).wf(),
            final(self)@ == (GameView {
                jobs: remeshed_for_all(old(self)@.jobs, list@),
                ..old(self)@
            }),
            acts_of(final(out)@) == acts_of(old(out)@) + project_all_acts(old(self)@.mode, list@),
    {
        let ghost before = self@;
        let ghost start = acts_of(out@);
        let mut i: usize = 0;
        proof {
            assert(list@.take(0) =~= Seq::empty());
            assert(start + project_all_acts(before.mode, list@.take(0)) =~= start);
        }
        while i < list.len()
            invariant
                i <= list@.len(),
                self.wf(),
                self@ == (GameView {
                    jobs: remeshed_for_all(before.jobs, list@.take(i as int)),
                    ..before
                }),
                acts_of(out@) == start + project_all_acts(before.mode, list@.take(i as int)),
            decreases list@.len() - i,
        {
            proof {
                assert(list@.take(i + 1).drop_last() =~= list@.take(i as int));
            }
            self.project(&list[i].1, out);
            proof {
                assert(acts_of(out@) =~= start + project_all_acts(
                    before.mode,
                    list@.take(i + 1),
                ));
            }
            i = i + 1;
        }
        proof {
            assert(list@.take(i as int) =~= list@);
        }
    }

    fn on_snapshot(&mut self, snap: PlayerSnapshot, tick: u32, server_time_ms: u64) -> (r: Option<
        GameAction,
    >)
        requires
            old(self).wf(),
        ensures
            final(self).wf(),
            final(self)@ == after_snapshot(old(self)@, snap, tick, server_time_ms),
            r == (if snap.entity_id == old(self)@.me {
                Some(
                    GameAction::Reconcile {
                        server_position: snap.position,
                        input_tick: snap.last_input_tick,
                    },
                )
            } else {
                None
            }),
    {
        let ghost before = self@;
        if snap.entity_id == self.entity_id {
            return Some(
                GameAction::Reconcile {
                    server_position: snap.position,
                    input_tick: snap.last_input_tick,
                },
            );
        }
        self.interp.ingest_tick(
            snap.entity_id,
            server_time_ms,
            snap.position,
            snap.yaw,
            snap.pitch,
        );
        match self.remote_players.remove(&snap.entity_id) {
            Some(p) => {
                self.remote_players.insert(
                    snap.entity_id,
                    RemotePlayerState { display_name: p.display_name, last_seen_tick: tick },
                );
            },
            None => {},
        }
        proof {
            assert(self@.players =~= after_snapshot(before, snap, tick, server_time_ms).players);
        }
        None
    }

    fn on_snapshots(
        &mut self,
        snaps: &Vec<PlayerSnapshot>,
        tick: u32,
        server_time_ms: u64,
        out: &mut Vec<GameAction>,
    )
        requires
            old(self).wf(),
        ensures
            final(self).wf(),
            final(self)@ == after_snapshots(old(self)@, snaps@, tick, server_time_ms),
            acts_of(final(out)@) == acts_of(old(out)@) + snapshot_acts(
                old(self)@.me,
                snaps@,
            ),
    {
        let ghost before = self@;
        let ghost start = acts_of(out@);
        let mut i: usize = 0;
        proof {
            assert(snaps@.take(0) =~= Seq::empty());
            assert(start + snapshot_acts(before.me, snaps@.take(0)) =~= start);
        }
        while i < snaps.len()
            invariant
                i <= snaps@.len(),
                self.wf(),
                self@.me == before.me,
                self@ == after_snapshots(before, snaps@.take(i as int), tick, server_time_ms),
                acts_of(out@) == start + snapshot_acts(before.me, snaps@.take(i as int)),
            decreases snaps@.len() - i,
        {
            let ghost earlier = out@;
            proof {
                assert(snaps@.take(i + 1).drop_last() =~= snaps@.take(i as int));
            }
            match self.on_snapshot(snaps[i], tick, server_time_ms) {
                Some(action) => {
                    out.push(action);
                    proof {
                        lemma_acts_push(earlier, action);
                        assert(acts_of(out@) =~= start + snapshot_acts(
                            before.me,
                            snaps@.take(i + 1),
                        ));
                    }
                },
                None => {},
            }
            i = i + 1;
        }
        proof {
            assert(snaps@.take(i as int) =~= snaps@);
        }
    }

    fn on_ack(&mut self, request_id: u32, accepted: bool, out: &mut Vec<GameAction>)
        requires
            old(self).wf(),
        ensures
            final(self).wf(),
            final(self)@ == (GameView {
                pending: PendingView {
                    open: old(self)@.pending.open.remove(request_id),
                    ..old(self)@.pending
                },
                jobs: match prediction::answer(old(self)@.pending.open, request_id, accepted) {
                    Some(action) => if old(self)@.mode == GameMode::Remote {
                        remeshed_at(old(self)@.jobs, action.pos)
                    } else {
                        old(self)@.jobs
                    },
                    None => old(self)@.jobs,
                },
                ..old(self)@
            }),
            acts_of(final(out)@) == acts_of(old(out)@) + match prediction::answer(
                old(self)@.pending.open,
                request_id,
                accepted,
            ) {
                Some(action) => if old(self)@.mode == GameMode::Remote {
                    seq![Act::WriteCell { pos: action.pos, cell: action.backup }]
                } else {
                    Seq::empty()
                },
                None => Seq::empty(),
            },
    {
        let ghost start = out@;
        proof {
            assert(acts_of(start) + Seq::<Act>::empty() =~= acts_of(start));
        }
        if let Some(rolled) = self.pending.resolve(request_id, accepted) {
            if self.mode == GameMode::Remote {
                let action = GameAction::WriteCell { pos: rolled.pos, cell: rolled.backup };
                out.push(action);
                proof {
                    lemma_acts_push(start, action);
                    assert(acts_of(out@) =~= acts_of(start) + seq![
                        Act::WriteCell { pos: rolled.pos, cell: rolled.backup },
                    ]);
                }
                self.remesh_at(rolled.pos);
            }
        }
    }

    fn on_peer_left(&mut self, entity_id: u32, now_us: u64)
        ensures
            final(self)@ == with_note(
                GameView {
                    players: old(self)@.players.remove(entity_id),
                    poses: old(self)@.poses.remove(entity_id),
                    ..old(self)@
                },
                name_of(old(self)@.players, entity_id) + " left the room"@,
                now_us,
            ),
            old(self).wf() ==> final(self).wf(),
    {
        let ghost before = self@;
        let name = self.player_name(entity_id);
        let note = joined(name.as_str(), " left the room");
        self.chat.push_system(note, now_us);
        self.remote_players.remove(&entity_id);
        self.interp.remove(entity_id);
        proof {
            assert(self@.players =~= before.players.remove(entity_id));
        }
    }

    /// Takes up a message of the host.
    pub fn apply_server_message(&mut self, msg: ServerMessage, now_us: u64) -> (r: Vec<GameAction>)
        requires
            old(self).wf(),
        ensures
            final(self).wf(),
            final(self)@ == after_message(old(self)@, msg, now_us),
            acts_of(r@) == message_acts(old(self)@, msg, now_us),
    {
        let ghost before = self@;
        let ghost message = msg;
        let mut out: Vec<GameAction> = Vec::new();
        proof {
            assert(acts_of(out@) =~= Seq::empty());
        }
        match msg {
            ServerMessage::Welcome {
                entity_id,
                host_entity_id,
                host_render_distance,
                players,
                ..
            } => {
                self.entity_id = entity_id;
                self.host_entity_id = host_entity_id;
                self.apply_host_render_distance(host_render_distance);
                self.add_roster(&players, entity_id);
                if self.mode == GameMode::Remote {
                    out.push(GameAction::ClearWorld);
                }
            },
            ServerMessage::HostSettings { render_distance } => {
                self.apply_host_render_distance(render_distance);
            },
            ServerMessage::FieldSnapshot { pos, frag_index, frag_total, payload } => {
                match self.chunk_assembler.ingest(pos, frag_index, frag_total, payload) {
                    Some(bytes) => {
                        out.push(GameAction::LoadField { pos, bytes });
                    },
                    None => {},
                }
            },
            ServerMessage::FieldDelta { pos, cell } => {
                let block = cell.to_block_id();
                if self.mode == GameMode::Remote {
                    out.push(GameAction::WriteBlock { pos, block });
                }
                self.remesh_at(pos);
            },
            ServerMessage::FreeObjectSpawn { object_id, cells } => {
                out.push(GameAction::SpawnObject { object_id, cells });
            },
            ServerMessage::FreeObjectSpawnBatch { spawns } => {
                out = spawn_actions(spawns);
            },
            ServerMessage::FreeObjectState { object_id, position, velocity } => {
                out.push(GameAction::MoveObject { object_id, position, velocity });
            },
            ServerMessage::FreeObjectStateBatch { states } => {
                out = move_actions(&states);
            },
            ServerMessage::FreeObjectProject { deltas, .. } => {
                self.project(&deltas, &mut out);
            },
            ServerMessage::FreeObjectProjectBatch { projections } => {
                self.project_all(&projections, &mut out);
            },
            ServerMessage::ActionAck { request_id, accepted, .. } => {
                self.on_ack(request_id, accepted, &mut out);
            },
            ServerMessage::PlayerTick { tick, players, server_time_ms } => {
                if self.mode != GameMode::Local {
                    out.push(GameAction::TickClock { server_time_ms });
                }
                proof {
                    assert(acts_of(out@) =~= if before.mode == GameMode::Local {
                        Seq::empty()
                    } else {
                        seq![Act::TickClock { server_time_ms }]
                    });
                }
                self.on_snapshots(&players, tick, server_time_ms, &mut out);
            },
            ServerMessage::PeerJoined { entity_id, display_name } => {
                let note = joined(display_name.as_str(), " joined the room");
                self.add_player(entity_id, display_name);
                self.chat.push_system(note, now_us);
            },
            ServerMessage::PeerLeft { entity_id } => {
                self.on_peer_left(entity_id, now_us);
            },
            ServerMessage::Chat { from, content } => {
                let name = if from == self.entity_id {
                    self.display_name.clone()
                } else {
                    self.player_name(from)
                };
                self.chat.push_user(from, name, content, now_us);
            },
            ServerMessage::Pong { client_time_ms, server_time_ms } => {
                match self.pending_pings.remove(&client_time_ms) {
                    Some(sent_us) => {
                        let round_trip_us: u64 = if now_us >= sent_us {
                            now_us - sent_us
                        } else {
                            0
                        };
                        out.push(GameAction::PongClock { round_trip_us, server_time_ms });
                    },
                    None => {
                        proof {
                            assert(before.pings.remove(client_time_ms) =~= before.pings);
                        }
                    },
                }
            },
        }
        proof {
            assert(self@ =~= after_message(before, message, now_us));
            assert(acts_of(out@) =~= message_acts(before, message, now_us));
        }
        out
    }
}

fn spawn_actions(spawns: Vec<(ObjectID, Vec<(Position, MaterialCell)>)>) -> (out: Vec<GameAction>)
    ensures
        acts_of(out@) == Seq::new(
            spawns@.len(),
            |i: int| Act::SpawnObject { object_id: spawns@[i].0, cells: spawns@[i].1@ },
        ),
{
    let ghost all = spawns@;
    let mut spawns = spawns;
    let mut reversed: Vec<GameAction> = Vec::new();
    let mut more = true;
    while more
        invariant
            spawns@.len() <= all.len(),
            spawns@ == all.take(spawns@.len() as int),
            reversed@.len() == all.len() - spawns@.len(),
            !more ==> spawns@.len() == 0,
            forall|i: int|
                0 <= i < reversed@.len() ==> act_of(#[trigger] reversed@[i]) == (Act::SpawnObject {
                    object_id: all[all.len() - 1 - i].0,
                    cells: all[all.len() - 1 - i].1@,
                }),
        decreases spawns@.len() + (if more { 1nat } else { 0nat }),
    {
        match spawns.pop() {
            Some((object_id, cells)) => {
                reversed.push(GameAction::SpawnObject { object_id, cells });
            },
            None => {
                more = false;
            },
        }
    }
    let ghost back = reversed@;
    let mut out: Vec<GameAction> = Vec::new();
    let mut left = true;
    while left
        invariant
            reversed@.len() <= back.len(),
            back.len() == all.len(),
            reversed@ == back.take(reversed@.len() as int),
            out@.len() == back.len() - reversed@.len(),
            !left ==> reversed@.len() == 0,
            forall|i: int| 0 <= i < out@.len() ==> #[trigger] out@[i] == back[back.len() - 1 - i],
        decreases reversed@.len() + (if left { 1nat } else { 0nat }),
    {
        match reversed.pop() {
            Some(action) => {
                out.push(action);
            },
            None => {
                left = false;
            },
        }
    }
    proof {
        assert(acts_of(out@) =~= Seq::new(
            all.len(),
            |i: int| Act::SpawnObject { object_id: all[i].0, cells: all[i].1@ },
        ));
    }
    out
}

fn move_actions(states: &Vec<(ObjectID, Vec3Bits, Vec3Bits)>) -> (out: Vec<GameAction>)
    ensures
        acts_of(out@) == Seq::new(
            states@.len(),
            |i: int|
                Act::MoveObject {
                    object_id: states@[i].0,
                    position: states@[i].1,
                    velocity: states@[i].2,
                },
        ),
{
    let mut out: Vec<GameAction> = Vec::new();
    let mut i: usize = 0;
    while i < states.len()
        invariant
            i <= states@.len(),
            out@.len() == i,
            forall|k: int|
                0 <= k < i ==> act_of(#[trigger] out@[k]) == (Act::MoveObject {
                    object_id: states@[k].0,
                    position: states@[k].1,
                    velocity: states@[k].2,
                }),
        decreases states@.len() - i,
    {
        let (object_id, position, velocity) = states[i];
        out.push(GameAction::MoveObject { object_id, position, velocity });
        i = i + 1;
    }
    proof {
        assert(acts_of(out@) =~= Seq::new(
            states@.len(),
            |i: int|
                Act::MoveObject {
                    object_id: states@[i].0,
                    position: states@[i].1,
                    velocity: states@[i].2,
                },
        ));
    }
    out
}

/// The blocks of a world after what has to be done with it. A place that is not in the map has not
/// been written.
pub open spec fn world_after(world: Map<Position, BlockID>, acts: Seq<Act>) -> Map<
    Position,
    BlockID,
>
    decreases acts.len(),
{
    if acts.len() == 0 {
        world
    } else {
        let before = world_after(world, acts.drop_last());
        match acts.last() {
            Act::ClearWorld => Map::empty(),
            Act::WriteBlock { pos, block } => before.insert(pos, block),
            Act::WriteCell { pos, cell } => before.insert(pos, block::block_of_cell(cell)),
            _ => before,
        }
    }
}

/// The blocks of a world after changes to its cells, one after another.
pub open spec fn world_changed(
    world: Map<Position, BlockID>,
    deltas: Seq<(Position, MaterialCell)>,
) -> Map<Position, BlockID>
    decreases deltas.len(),
{
    if deltas.len() == 0 {
        world
    } else {
        world_changed(world, deltas.drop_last()).insert(
            deltas.last().0,
            block::block_of_cell(deltas.last().1),
        )
    }
}

/// The blocks of a world after the changes that several bodies leave behind.
pub open spec fn world_changed_by_all(
    world: Map<Position, BlockID>,
    list: Seq<(ObjectID, Vec<(Position, MaterialCell)>)>,
) -> Map<Position, BlockID>
    decreases list.len(),
{
    if list.len() == 0 {
        world
    } else {
        world_changed(world_changed_by_all(world, list.drop_last()), list.last().1@)
    }
}

/// A place holds what the latest change to it says; a place that is not changed is as before.
pub proof fn law_the_latest_change_counts(
    world: Map<Position, BlockID>,
    deltas: Seq<(Position, MaterialCell)>,
    pos: Position,
    i: int,
)
    ensures
        0 <= i < deltas.len() && deltas[i].0 == pos && (forall|j: int|
            i < j < deltas.len() ==> (#[trigger] deltas[j]).0 != pos) ==> world_changed(
            world,
            deltas,
        ).contains_key(pos) && world_changed(world, deltas)[pos] == block::block_of_cell(
            deltas[i].1,
        ),
        (forall|j: int| 0 <= j < deltas.len() ==> (#[trigger] deltas[j]).0 != pos) ==> {
            &&& world_changed(world, deltas).contains_key(pos) == world.contains_key(pos)
            &&& world_changed(world, deltas)[pos] == world[pos]
        },
    decreases deltas.len(),
{
    if deltas.len() > 0 {
        let rest = deltas.drop_last();
        assert(deltas[deltas.len() - 1] == deltas.last());
        assert forall|j: int| 0 <= j < rest.len() implies (#[trigger] rest[j]) == deltas[j] by {}
        law_the_latest_change_counts(world, rest, pos, i);
        if deltas.last().0 != pos {
            if 0 <= i < deltas.len() && deltas[i].0 == pos && (forall|j: int|
                i < j < deltas.len() ==> (#[trigger] deltas[j]).0 != pos) {
                assert(i < rest.len());
                assert forall|j: int| i < j < rest.len() implies (#[trigger] rest[j]).0 != pos by {
                    assert(deltas[j].0 != pos);
                }
            }
            if forall|j: int| 0 <= j < deltas.len() ==> (#[trigger] deltas[j]).0 != pos {
                assert forall|j: int| 0 <= j < rest.len() implies (#[trigger] rest[j]).0 != pos by {
                    assert(deltas[j].0 != pos);
                }
            }
        } else if 0 <= i < deltas.len() - 1 && deltas[i].0 == pos && (forall|j: int|
            i < j < deltas.len() ==> (#[trigger] deltas[j]).0 != pos) {
            assert(deltas[deltas.len() - 1].0 != pos);
        }
    }
}

proof fn lemma_world_after_both(world: Map<Position, BlockID>, a: Seq<Act>, b: Seq<Act>)
    ensures
        world_after(world, a + b) == world_after(world_after(world, a), b),
    decreases b.len(),
{
    if b.len() == 0 {
        assert(a + b =~= a);
    } else {
        lemma_world_after_both(world, a, b.drop_last());
        assert((a + b).drop_last() =~= a + b.drop_last());
        assert((a + b).last() == b.last());
    }
}

proof fn lemma_world_after_writes(
    mode: GameMode,
    world: Map<Position, BlockID>,
    deltas: Seq<(Position, MaterialCell)>,
)
    ensures
        world_after(world, writes_for(mode, deltas)) == if mode == GameMode::Remote {
            world_changed(world, deltas)
        } else {
            world
        },
    decreases deltas.len(),
{
    if mode == GameMode::Remote && deltas.len() > 0 {
        lemma_world_after_writes(mode, world, deltas.drop_last());
        assert(writes_for(mode, deltas).drop_last() =~= writes_for(mode, deltas.drop_last()));
        assert(writes_for(mode, deltas).last() == Act::WriteBlock {
            pos: deltas.last().0,
            block: block::block_of_cell(deltas.last().1),
        });
    }
}

proof fn lemma_world_after_project(
    mode: GameMode,
    world: Map<Position, BlockID>,
    deltas: Seq<(Position, MaterialCell)>,
)
    ensures
        world_after(world, project_acts(mode, deltas)) == if mode == GameMode::Remote {
            world_changed(world, deltas)
        } else {
            world
        },
{
    let shown: Seq<Act> = match moves_of(deltas) {
        Some(cells) => seq![Act::Animate { cells }],
        None => Seq::empty(),
    };
    if shown.len() == 1 {
        assert(shown.drop_last() =~= Seq::empty());
        assert(world_after(world, shown.drop_last()) == world);
    }
    assert(world_after(world, shown) == world);
    lemma_world_after_both(world, shown, writes_for(mode, deltas));
    lemma_world_after_writes(mode, world, deltas);
}

proof fn lemma_world_after_project_all(
    mode: GameMode,
    world: Map<Position, BlockID>,
    list: Seq<(ObjectID, Vec<(Position, MaterialCell)>)>,
)
    ensures
        world_after(world, project_all_acts(mode, list)) == if mode == GameMode::Remote {
            world_changed_by_all(world, list)
        } else {
            world
        },
    decreases list.len(),
{
    if list.len() > 0 {
        lemma_world_after_project_all(mode, world, list.drop_last());
        let before = project_all_acts(mode, list.drop_last());
        lemma_world_after_both(world, before, project_acts(mode, list.last().1@));
        lemma_world_after_project(mode, world_after(world, before), list.last().1@);
    }
}

/// A guest's world follows the host's: after the host has reported a changed cell or bodies that
/// have come to rest, the guest's blocks are as if each reported cell had been written in turn. A
/// player who keeps the world has it changed already, and nothing is written a second time.
pub proof fn law_a_guest_keeps_in_step(
    v: GameView,
    world: Map<Position, BlockID>,
    pos: Position,
    cell: MaterialCell,
    object_id: ObjectID,
    deltas: Vec<(Position, MaterialCell)>,
    projections: Vec<(ObjectID, Vec<(Position, MaterialCell)>)>,
    now_us: u64,
)
    ensures
        ({
            let changed = message_acts(v, ServerMessage::FieldDelta { pos, cell }, now_us);
            let rested = message_acts(
                v,
                ServerMessage::FreeObjectProject { object_id, deltas },
                now_us,
            );
            let all_rested = message_acts(
                v,
                ServerMessage::FreeObjectProjectBatch { projections },
                now_us,
            );
            if v.mode == GameMode::Remote {
                &&& world_after(world, changed) == world.insert(pos, block::block_of_cell(cell))
                &&& world_after(world, rested) == world_changed(world, deltas@)
                &&& world_after(world, all_rested) == world_changed_by_all(world, projections@)
            } else {
                &&& world_after(world, changed) == world
                &&& world_after(world, rested) == world
                &&& world_after(world, all_rested) == world
            }
        }),
{
    let changed = message_acts(v, ServerMessage::FieldDelta { pos, cell }, now_us);
    if changed.len() == 1 {
        assert(changed.drop_last() =~= Seq::empty());
        assert(world_after(world, changed.drop_last()) == world);
    }
    lemma_world_after_project(v.mode, world, deltas@);
    lemma_world_after_project_all(v.mode, world, projections@);
}

/// What has come to rest is written cell by cell, in the order in which the host reports it, behind
/// what is shown of the fall; a player who keeps the world writes no block.
pub proof fn law_rested_cells_are_written_in_order(
    v: GameView,
    object_id: ObjectID,
    deltas: Vec<(Position, MaterialCell)>,
    now_us: u64,
    i: int,
)
    requires
        0 <= i < deltas@.len(),
    ensures
        ({
            let acts = message_acts(
                v,
                ServerMessage::FreeObjectProject { object_id, deltas },
                now_us,
            );
            if v.mode == GameMode::Remote {
                &&& deltas@.len() <= acts.len() <= deltas@.len() + 1
                &&& acts[acts.len() - deltas@.len() + i] == Act::WriteBlock {
                    pos: deltas@[i].0,
                    block: block::block_of_cell(deltas@[i].1),
                }
                &&& forall|k: int|
                    0 <= k < acts.len() - deltas@.len() ==> (#[trigger] acts[k]) is Animate
            } else {
                forall|k: int| 0 <= k < acts.len() ==> (#[trigger] acts[k]) is Animate
            }
        }),
{
}

proof fn lemma_queued_all(jobs: Seq<Seq<ChunkPos>>, list: Seq<ChunkPos>, p: MeshPriority)
    requires
        mesh_jobs::is_orderly(jobs),
    ensures
        mesh_jobs::is_orderly(queued_all(jobs, list, p)),
        forall|i: int|
            0 <= i < list.len() ==> mesh_jobs::waits_by(
                queued_all(jobs, list, p),
                #[trigger] list[i],
                mesh_jobs::rank(p),
            ),
        forall|q: ChunkPos, r: int|
            0 <= r < 4 && #[trigger] mesh_jobs::waits_by(jobs, q, r) ==> mesh_jobs::waits_by(
                queued_all(jobs, list, p),
                q,
                r,
            ),
    decreases list.len(),
{
    if list.len() > 0 {
        let rest = list.drop_last();
        let before = queued_all(jobs, rest, p);
        lemma_queued_all(jobs, rest, p);
        mesh_jobs::law_no_chunk_waits_twice(before, list.last(), p);
        mesh_jobs::law_enqueue_only_hastens(before, list.last(), p, list.last(), 0);
        assert forall|i: int| 0 <= i < list.len() implies mesh_jobs::waits_by(
            queued_all(jobs, list, p),
            #[trigger] list[i],
            mesh_jobs::rank(p),
        ) by {
            if i < rest.len() {
                assert(rest[i] == list[i]);
                mesh_jobs::law_enqueue_only_hastens(
                    before,
                    list.last(),
                    p,
                    list[i],
                    mesh_jobs::rank(p),
                );
            }
        }
        assert forall|q: ChunkPos, r: int|
            0 <= r < 4 && #[trigger] mesh_jobs::waits_by(jobs, q, r) implies mesh_jobs::waits_by(
            queued_all(jobs, list, p),
            q,
            r,
        ) by {
            mesh_jobs::law_enqueue_only_hastens(before, list.last(), p, q, r);
        }
    }
}

/// Where a block has changed, every chunk that shows it waits to be meshed, with at least the
/// priority of what is near; no chunk that waited before waits longer.
pub proof fn law_changed_chunks_are_meshed_again(
    jobs: Seq<Seq<ChunkPos>>,
    pos: Position,
    q: ChunkPos,
)
    requires
        mesh_jobs::is_orderly(jobs),
    ensures
        mesh_jobs::is_orderly(remeshed_at(jobs, pos)),
        chunk_loader::affected(pos).contains(q) ==> mesh_jobs::waits_by(
            remeshed_at(jobs, pos),
            q,
            1,
        ),
        forall|r: int|
            0 <= r < 4 && mesh_jobs::waits_by(jobs, q, r) ==> #[trigger] mesh_jobs::waits_by(
                remeshed_at(jobs, pos),
                q,
                r,
            ),
{
    lemma_queued_all(jobs, chunk_loader::affected(pos), MeshPriority::High);
    let list = chunk_loader::affected(pos);
    if list.contains(q) {
        let i = choose|i: int| 0 <= i < list.len() && list[i] == q;
        assert(mesh_jobs::waits_by(remeshed_at(jobs, pos), list[i], 1));
    }
}

/// All chunks that show a cell of a body that has come to rest wait to be meshed.
pub proof fn law_rested_bodies_are_meshed(
    jobs: Seq<Seq<ChunkPos>>,
    deltas: Seq<(Position, MaterialCell)>,
    i: int,
    q: ChunkPos,
)
    requires
        mesh_jobs::is_orderly(jobs),
    ensures
        mesh_jobs::is_orderly(remeshed_for(jobs, deltas)),
        0 <= i < deltas.len() && chunk_loader::affected(deltas[i].0).contains(q)
            ==> mesh_jobs::waits_by(remeshed_for(jobs, deltas), q, 1),
        mesh_jobs::waits_by(jobs, q, 1) ==> mesh_jobs::waits_by(remeshed_for(jobs, deltas), q, 1),
    decreases deltas.len(),
{
    if deltas.len() > 0 {
        let rest = deltas.drop_last();
        law_rested_bodies_are_meshed(jobs, rest, i, q);
        law_changed_chunks_are_meshed_again(remeshed_for(jobs, rest), deltas.last().0, q);
        if 0 <= i < rest.len() {
            assert(rest[i] == deltas[i]);
        }
    }
}

/// Messages that change cells make the chunks around them be meshed again, and change nothing else
/// of what the player keeps.
pub proof fn law_changed_cells_are_meshed(
    v: GameView,
    pos: Position,
    cell: MaterialCell,
    object_id: ObjectID,
    deltas: Vec<(Position, MaterialCell)>,
    now_us: u64,
    i: int,
    q: ChunkPos,
)
    requires
        mesh_jobs::is_orderly(v.jobs),
        0 <= i < deltas@.len(),
    ensures
        ({
            let a = after_message(v, ServerMessage::FieldDelta { pos, cell }, now_us);
            let b = after_message(
                v,
                ServerMessage::FreeObjectProject { object_id, deltas },
                now_us,
            );
            &&& chunk_loader::affected(pos).contains(q) ==> mesh_jobs::waits_by(a.jobs, q, 1)
            &&& chunk_loader::affected(deltas@[i].0).contains(q) ==> mesh_jobs::waits_by(
                b.jobs,
                q,
                1,
            )
            &&& a == (GameView { jobs: a.jobs, ..v })
            &&& b == (GameView { jobs: b.jobs, ..v })
        }),
{
    law_changed_chunks_are_meshed_again(v.jobs, pos, q);
    law_rested_bodies_are_meshed(v.jobs, deltas@, i, q);
}

proof fn lemma_emptied(deltas: Seq<(Position, MaterialCell)>, k: int)
    requires
        0 <= k < emptied(deltas).len(),
    ensures
        exists|i: int|
            0 <= i < deltas.len() && (#[trigger] deltas[i]).0 == emptied(deltas)[k]
                && block::block_of_cell(deltas[i].1).0 == 0,
    decreases deltas.len(),
{
    let rest = deltas.drop_last();
    if k < emptied(rest).len() {
        lemma_emptied(rest, k);
        let i = choose|i: int|
            0 <= i < rest.len() && (#[trigger] rest[i]).0 == emptied(rest)[k]
                && block::block_of_cell(rest[i].1).0 == 0;
        assert(deltas[i] == rest[i]);
    } else {
        assert(deltas[deltas.len() - 1] == deltas.last());
    }
}

proof fn lemma_filled(deltas: Seq<(Position, MaterialCell)>, k: int)
    requires
        0 <= k < filled(deltas).len(),
    ensures
        exists|i: int|
            0 <= i < deltas.len() && (#[trigger] deltas[i]).0 == filled(deltas)[k].0
                && block::block_of_cell(deltas[i].1) == filled(deltas)[k].1,
        filled(deltas)[k].1.0 != 0,
    decreases deltas.len(),
{
    let rest = deltas.drop_last();
    if k < filled(rest).len() {
        lemma_filled(rest, k);
        let i = choose|i: int|
            0 <= i < rest.len() && (#[trigger] rest[i]).0 == filled(rest)[k].0
                && block::block_of_cell(rest[i].1) == filled(rest)[k].1;
        assert(deltas[i] == rest[i]);
    } else {
        assert(deltas[deltas.len() - 1] == deltas.last());
    }
}

/// A shown movement leads from a cell that was emptied to a cell that was filled, and shows the
/// block that is there now, which is not air.
pub proof fn law_shown_moves_are_real(deltas: Seq<(Position, MaterialCell)>, k: int)
    requires
        moves_of(deltas) is Some,
        0 <= k < moves_of(deltas)->0.len(),
    ensures
        ({
            let m = moves_of(deltas)->0[k];
            &&& exists|i: int|
                0 <= i < deltas.len() && (#[trigger] deltas[i]).0 == m.from && block::block_of_cell(
                    deltas[i].1,
                ).0 == 0
            &&& exists|i: int|
                0 <= i < deltas.len() && (#[trigger] deltas[i]).0 == m.to && block::block_of_cell(
                    deltas[i].1,
                ) == m.block
            &&& m.block.0 != 0
        }),
{
    lemma_emptied(deltas, k);
    lemma_filled(deltas, k);
}

/// A fall is shown whenever as many cells were emptied as filled: with one emptied cell and one
/// filled cell it is the way from the first to the second, whichever is reported first.
pub proof fn law_a_grain_is_shown_falling(
    from: Position,
    gone: MaterialCell,
    to: Position,
    here: MaterialCell,
)
    requires
        block::block_of_cell(gone).0 == 0,
        block::block_of_cell(here).0 != 0,
    ensures
        moves_of(seq![(from, gone), (to, here)]) == Some(
            seq![CellMove { from, to, block: block::block_of_cell(here) }],
        ),
        moves_of(seq![(to, here), (from, gone)]) == Some(
            seq![CellMove { from, to, block: block::block_of_cell(here) }],
        ),
        moves_of(seq![(to, here)]) is None,
        moves_of(seq![(from, gone)]) is None,
{
    let one = seq![(from, gone), (to, here)];
    let two = seq![(to, here), (from, gone)];
    let here_only = seq![(to, here)];
    let gone_only = seq![(from, gone)];
    assert(one.drop_last() =~= gone_only);
    assert(two.drop_last() =~= here_only);
    assert(here_only.drop_last() =~= Seq::empty());
    assert(gone_only.drop_last() =~= Seq::empty());
    assert(emptied(Seq::<(Position, MaterialCell)>::empty()) =~= Seq::empty());
    assert(filled(Seq::<(Position, MaterialCell)>::empty()) =~= Seq::empty());
    assert(emptied(gone_only) =~= seq![from]);
    assert(filled(gone_only) =~= Seq::empty());
    assert(emptied(here_only) =~= Seq::empty());
    assert(filled(here_only) =~= seq![(to, block::block_of_cell(here))]);
    assert(emptied(one) =~= seq![from]);
    assert(filled(one) =~= seq![(to, block::block_of_cell(here))]);
    assert(emptied(two) =~= seq![from]);
    assert(filled(two) =~= seq![(to, block::block_of_cell(here))]);
    assert(moves_of(one)->0 =~= seq![CellMove { from, to, block: block::block_of_cell(here) }]);
    assert(moves_of(two)->0 =~= seq![CellMove { from, to, block: block::block_of_cell(here) }]);
}

/// Free objects appear and move as the host says, each of a batch as if it had been reported alone,
/// and change nothing of what the player keeps.
pub proof fn law_free_objects_follow_the_host(
    v: GameView,
    object_id: ObjectID,
    cells: Vec<(Position, MaterialCell)>,
    position: Vec3Bits,
    velocity: Vec3Bits,
    spawns: Vec<(ObjectID, Vec<(Position, MaterialCell)>)>,
    states: Vec<(ObjectID, Vec3Bits, Vec3Bits)>,
    now_us: u64,
    i: int,
)
    ensures
        ({
            let spawn = ServerMessage::FreeObjectSpawn { object_id, cells };
            let state = ServerMessage::FreeObjectState { object_id, position, velocity };
            let spawn_all = ServerMessage::FreeObjectSpawnBatch { spawns };
            let state_all = ServerMessage::FreeObjectStateBatch { states };
            &&& message_acts(v, spawn, now_us) == seq![
                Act::SpawnObject { object_id, cells: cells@ },
            ]
            &&& message_acts(v, state, now_us) == seq![
                Act::MoveObject { object_id, position, velocity },
            ]
            &&& message_acts(v, spawn_all, now_us).len() == spawns@.len()
            &&& message_acts(v, state_all, now_us).len() == states@.len()
            &&& 0 <= i < spawns@.len() ==> message_acts(v, spawn_all, now_us)[i] == message_acts(
                v,
                ServerMessage::FreeObjectSpawn {
                    object_id: spawns@[i].0,
                    cells: spawns@[i].1,
                },
                now_us,
            )[0]
            &&& 0 <= i < states@.len() ==> message_acts(v, state_all, now_us)[i] == message_acts(
                v,
                ServerMessage::FreeObjectState {
                    object_id: states@[i].0,
                    position: states@[i].1,
                    velocity: states@[i].2,
                },
                now_us,
            )[0]
            &&& after_message(v, spawn, now_us) == v
            &&& after_message(v, state, now_us) == v
            &&& after_message(v, spawn_all, now_us) == v
            &&& after_message(v, state_all, now_us) == v
        }),
{
}

/// Bodies that come to rest in one batch are taken up one after another, as if each had been
/// reported alone.
pub proof fn law_a_batch_of_rested_bodies_is_taken_up_in_turn(
    v: GameView,
    list: Seq<(ObjectID, Vec<(Position, MaterialCell)>)>,
    object_id: ObjectID,
    deltas: Vec<(Position, MaterialCell)>,
    now_us: u64,
)
    ensures
        ({
            let single = ServerMessage::FreeObjectProject { object_id, deltas };
            let longer = list.push((object_id, deltas));
            let w = GameView { jobs: remeshed_for_all(v.jobs, list), ..v };
            &&& project_all_acts(v.mode, longer) == project_all_acts(v.mode, list)
                + message_acts(v, single, now_us)
            &&& GameView { jobs: remeshed_for_all(v.jobs, longer), ..v } == after_message(
                w,
                single,
                now_us,
            )
            &&& project_all_acts(v.mode, Seq::empty()) == Seq::<Act>::empty()
        }),
{
    let longer = list.push((object_id, deltas));
    assert(longer.drop_last() =~= list);
}

/// A guest sees no farther than the host allows, nor than it wants to; the others see as far as
/// they want to. When the distance changes, the chunks around are looked through again.
pub proof fn law_distances_respect_the_host(v: GameView, host_distance: u32, wanted: u32)
    requires
        v.distance <= i32::MAX,
        wanted <= i32::MAX,
    ensures
        ({
            let a = with_host_distance(v, host_distance);
            let b = with_wanted_distance(v, wanted);
            &&& a.loader.distance <= v.distance
            &&& v.mode == GameMode::Remote && host_distance > 0 ==> a.loader.distance
                <= host_distance && (a.loader.distance == host_distance || a.loader.distance
                == v.distance)
            &&& v.mode == GameMode::Remote && host_distance == 0 ==> a.loader.distance <= 1
            &&& v.mode != GameMode::Remote ==> a.loader.distance == v.distance
            &&& a.loader.distance != v.loader.distance ==> a.loader.center is None
            &&& a.loader.distance == v.loader.distance ==> a.loader.center == v.loader.center
            &&& a.loader.loaded == v.loader.loaded
            &&& a.loader.requested == v.loader.requested
            &&& a.distance == v.distance
            &&& v.mode == GameMode::Remote && host_distance > 0 ==> a.host_distance == host_distance
            &&& v.mode == GameMode::Remote ==> a.host_distance > 0
            &&& v.mode != GameMode::Remote ==> a.host_distance == v.distance
            &&& b.distance == wanted
            &&& b.loader.distance <= wanted
            &&& v.mode == GameMode::Remote && v.host_distance > 0 ==> b.loader.distance
                <= v.host_distance && (b.loader.distance == v.host_distance || b.loader.distance
                == wanted)
            &&& v.mode != GameMode::Remote ==> b.loader.distance == wanted
            &&& b.loader.distance != v.loader.distance ==> b.loader.center is None
            &&& b.loader.distance == v.loader.distance ==> b.loader.center == v.loader.center
            &&& b.loader.loaded == v.loader.loaded
        }),
{
}

/// Who is in the room after a list of players: those known before, and those on the list, but not
/// oneself. A player known before keeps the name; a new one has the name on the list.
pub proof fn law_the_roster_names_everyone(
    players: Map<u32, PlayerModel>,
    list: Seq<PlayerEntry>,
    me: u32,
    id: u32,
    first: int,
)
    requires
        id == me || 0 <= first < list.len() && list[first].entity_id == id && forall|k: int|
            0 <= k < first ==> (#[trigger] list[k]).entity_id != id,
    ensures
        ({
            let after = with_roster(players, list, me);
            &&& id == me ==> after.contains_key(id) == players.contains_key(id)
            &&& id != me ==> after.contains_key(id)
            &&& players.contains_key(id) ==> after[id] == players[id]
            &&& id != me && !players.contains_key(id) ==> after[id].name
                == list[first].display_name@
        }),
    decreases list.len(),
{
    if list.len() > 0 {
        let rest = list.drop_last();
        if id == me || first < rest.len() {
            if id != me {
                assert forall|k: int| 0 <= k < first implies (#[trigger] rest[k]).entity_id
                    != id by {
                    assert(list[k].entity_id != id);
                }
            }
            law_the_roster_names_everyone(players, rest, me, id, first);
        } else {
            assert(list.last() == list[first]);
            lemma_not_listed(players, rest, me, id);
        }
    }
}

proof fn lemma_not_listed(
    players: Map<u32, PlayerModel>,
    list: Seq<PlayerEntry>,
    me: u32,
    id: u32,
)
    requires
        forall|k: int| 0 <= k < list.len() ==> (#[trigger] list[k]).entity_id != id,
    ensures
        with_roster(players, list, me).contains_key(id) == players.contains_key(id),
        players.contains_key(id) ==> with_roster(players, list, me)[id] == players[id],
    decreases list.len(),
{
    if list.len() > 0 {
        let rest = list.drop_last();
        assert(list[list.len() - 1] == list.last());
        assert forall|k: int| 0 <= k < rest.len() implies (#[trigger] rest[k]).entity_id != id by {
            assert(list[k].entity_id != id);
        }
        lemma_not_listed(players, rest, me, id);
    }
}

/// No one else comes in by a list of players.
pub proof fn law_only_listed_players_come_in(
    players: Map<u32, PlayerModel>,
    list: Seq<PlayerEntry>,
    me: u32,
    id: u32,
)
    requires
        forall|k: int| 0 <= k < list.len() ==> (#[trigger] list[k]).entity_id != id,
    ensures
        with_roster(players, list, me).contains_key(id) == players.contains_key(id),
{
    lemma_not_listed(players, list, me, id);
}

/// The host's welcome tells a player its number and who the host is, and a guest starts with an
/// empty world.
pub proof fn law_a_welcome_gives_the_player_a_number(
    v: GameView,
    entity_id: u32,
    server_tick: u32,
    world_seed: u64,
    host_entity_id: u32,
    host_render_distance: u32,
    players: Vec<PlayerEntry>,
    now_us: u64,
    world: Map<Position, BlockID>,
)
    ensures
        ({
            let msg = ServerMessage::Welcome {
                entity_id,
                server_tick,
                world_seed,
                host_entity_id,
                host_render_distance,
                players,
            };
            let a = after_message(v, msg, now_us);
            let told = after_message(
                v,
                ServerMessage::HostSettings { render_distance: host_render_distance },
                now_us,
            );
            &&& a.me == entity_id
            &&& a.host == host_entity_id
            &&& a.players == with_roster(v.players, players@, entity_id)
            &&& a.loader == told.loader
            &&& a.host_distance == told.host_distance
            &&& a.chat == v.chat
            &&& a.history == v.history
            &&& a.jobs == v.jobs
            &&& world_after(world, message_acts(v, msg, now_us)) == if v.mode == GameMode::Remote {
                Map::<Position, BlockID>::empty()
            } else {
                world
            }
        }),
{
}

/// A player who joins is in the room under the name told, and one who leaves is not any more, nor
/// is the player's movement. Either is noted in the chat, with the name, and no one else comes or
/// goes.
pub proof fn law_players_come_and_go(
    v: GameView,
    entity_id: u32,
    display_name: String,
    now_us: u64,
    other: u32,
)
    requires
        v.chat_cap > 0,
    ensures
        ({
            let joined = after_message(
                v,
                ServerMessage::PeerJoined { entity_id, display_name },
                now_us,
            );
            let left = after_message(v, ServerMessage::PeerLeft { entity_id }, now_us);
            &&& joined.players.contains_key(entity_id)
            &&& !v.players.contains_key(entity_id) ==> joined.players[entity_id].name
                == display_name@
            &&& other != entity_id ==> joined.players.contains_key(other)
                == v.players.contains_key(other)
            &&& v.players.contains_key(other) ==> joined.players[other] == v.players[other]
            &&& joined.chat.len() > 0
            &&& joined.chat.last() == (chat::ChatLine {
                from: None,
                content: display_name@ + " joined the room"@,
                at_us: now_us,
            })
            &&& joined.poses == v.poses
            &&& !left.players.contains_key(entity_id)
            &&& !left.poses.contains_key(entity_id)
            &&& other != entity_id ==> left.players.contains_key(other)
                == v.players.contains_key(other)
            &&& other != entity_id && v.players.contains_key(other) ==> left.players[other]
                == v.players[other]
            &&& other != entity_id ==> left.poses.contains_key(other) == v.poses.contains_key(other)
            &&& left.chat.len() > 0
            &&& left.chat.last().from is None
            &&& left.chat.last().at_us == now_us
            &&& v.players.contains_key(entity_id) ==> left.chat.last().content
                == v.players[entity_id].name + " left the room"@
        }),
{
}

/// What a player says is the latest line of the chat, with who said it: oneself under the own
/// name, another under the name known, and a stranger by number.
pub proof fn law_what_is_said_is_heard(v: GameView, from: u32, content: String, now_us: u64)
    requires
        v.chat_cap > 0,
    ensures
        ({
            let a = after_message(v, ServerMessage::Chat { from, content }, now_us);
            &&& a.chat.len() > 0
            &&& a.chat.last().content == content@
            &&& a.chat.last().at_us == now_us
            &&& a.chat.last().from matches Some(who)
            &&& who.0 == from
            &&& from == v.me ==> who.1 == v.name
            &&& from != v.me && v.players.contains_key(from) ==> who.1 == v.players[from].name
            &&& from != v.me && !v.players.contains_key(from) ==> who.1 == "Player "@
                + text::decimal(from as nat)
            &&& a == (GameView { chat: a.chat, ..v })
        }),
{
}

/// A report of positions: another player's position is kept under the host's time, a player in the
/// room is noted as seen, and one's own position changes nothing before it is compared with what
/// was predicted.
pub proof fn law_reported_positions_are_kept(
    v: GameView,
    snap: PlayerSnapshot,
    tick: u32,
    time_ms: u64,
    other: u32,
)
    requires
        interp::is_timeline(interp::samples_of(v.poses, snap.entity_id)),
        interp::samples_of(v.poses, snap.entity_id).len() < interp::SAMPLE_CAP,
    ensures
        ({
            let a = after_snapshot(v, snap, tick, time_ms);
            &&& snap.entity_id == v.me ==> a == v
            &&& snap.entity_id != v.me ==> interp::samples_of(a.poses, snap.entity_id).contains(
                interp::Sample {
                    server_time_ms: time_ms,
                    position: snap.position,
                    yaw: snap.yaw,
                    pitch: snap.pitch,
                },
            )
            &&& other != snap.entity_id ==> interp::samples_of(a.poses, other)
                == interp::samples_of(v.poses, other)
            &&& a.players.dom() == v.players.dom()
            &&& v.players.contains_key(other) ==> a.players[other].name == v.players[other].name
            &&& snap.entity_id != v.me && v.players.contains_key(snap.entity_id)
                ==> a.players[snap.entity_id].seen == tick
            &&& a.history == v.history
        }),
{
    let s = interp::samples_of(v.poses, snap.entity_id);
    let x = interp::Sample {
        server_time_ms: time_ms,
        position: snap.position,
        yaw: snap.yaw,
        pitch: snap.pitch,
    };
    interp::law_reports_stay_in_order(s, x);
    assert(after_snapshot(v, snap, tick, time_ms).players.dom() =~= v.players.dom());
}

/// Each report of one's own position, and no other, asks for a comparison with what was predicted
/// for the input that it confirms, in the order of the reports.
pub proof fn law_own_reports_are_compared(me: u32, snaps: Seq<PlayerSnapshot>, more: PlayerSnapshot)
    ensures
        more.entity_id == me ==> snapshot_acts(me, snaps.push(more)) == snapshot_acts(me, snaps)
            + seq![
            Act::Reconcile {
                server_position: more.position,
                input_tick: more.last_input_tick,
            },
        ],
        more.entity_id != me ==> snapshot_acts(me, snaps.push(more)) == snapshot_acts(me, snaps),
        snapshot_acts(me, Seq::empty()) == Seq::<Act>::empty(),
{
    assert(snaps.push(more).drop_last() =~= snaps);
}

/// A report of positions tells the host's clock to everyone but a player who is alone, and the
/// reports of a list are taken up in turn.
pub proof fn law_a_report_tells_the_clock(
    v: GameView,
    tick: u32,
    players: Vec<PlayerSnapshot>,
    server_time_ms: u64,
    now_us: u64,
)
    ensures
        ({
            let msg = ServerMessage::PlayerTick { tick, players, server_time_ms };
            let acts = message_acts(v, msg, now_us);
            &&& v.mode != GameMode::Local ==> acts.len() > 0 && acts[0] == Act::TickClock {
                server_time_ms,
            }
            &&& v.mode == GameMode::Local ==> acts == snapshot_acts(v.me, players@)
            &&& players@.len() > 0 ==> after_message(v, msg, now_us) == after_snapshot(
                after_snapshots(v, players@.drop_last(), tick, server_time_ms),
                players@.last(),
                tick,
                server_time_ms,
            )
        }),
{
    assert(Seq::<Act>::empty() + snapshot_acts(v.me, players@) =~= snapshot_acts(v.me, players@));
}

/// A refused change is written back as the cell was, by a guest; an accepted one stands. Either way
/// it is not answered a second time, and the others wait on.
pub proof fn law_an_answer_settles_one_request(
    v: GameView,
    request_id: u32,
    accepted: bool,
    reason: crate::protocol::AckReason,
    now_us: u64,
    other: u32,
    world: Map<Position, BlockID>,
)
    ensures
        ({
            let msg = ServerMessage::ActionAck { request_id, accepted, reason };
            let a = after_message(v, msg, now_us);
            let w = world_after(world, message_acts(v, msg, now_us));
            &&& !a.pending.open.contains_key(request_id)
            &&& other != request_id ==> a.pending.open.contains_key(other)
                == v.pending.open.contains_key(other)
            &&& a.pending.next == v.pending.next
            &&& w == (if v.mode == GameMode::Remote && !accepted && v.pending.open.contains_key(
                request_id,
            ) {
                world.insert(
                    v.pending.open[request_id].pos,
                    block::block_of_cell(v.pending.open[request_id].backup),
                )
            } else {
                world
            })
        }),
{
    let msg = ServerMessage::ActionAck { request_id, accepted, reason };
    let acts = message_acts(v, msg, now_us);
    if acts.len() == 1 {
        assert(acts.drop_last() =~= Seq::empty());
        assert(world_after(world, acts.drop_last()) == world);
    }
}

/// A chunk that has arrived counts as there and no longer as asked for, and it and the eight chunks
/// around it wait to be meshed; what was known of other chunks stays.
pub proof fn law_an_arrived_chunk_is_shown(v: GameView, pos: ChunkPos, q: ChunkPos, other: ChunkPos)
    requires
        mesh_jobs::is_orderly(v.jobs),
        i32::MIN < pos.x < i32::MAX,
        i32::MIN < pos.z < i32::MAX,
        -1 <= q.x - pos.x <= 1,
        -1 <= q.z - pos.z <= 1,
    ensures
        ({
            let a = after_field(v, pos);
            &&& a.loader.loaded.contains(chunk::chunk_key(pos))
            &&& !a.loader.requested.contains(chunk::chunk_key(pos))
            &&& mesh_jobs::waits_by(a.jobs, q, 1)
            &&& other != pos ==> a.loader.loaded.contains(chunk::chunk_key(other))
                == v.loader.loaded.contains(chunk::chunk_key(other))
            &&& other != pos ==> a.loader.requested.contains(chunk::chunk_key(other))
                == v.loader.requested.contains(chunk::chunk_key(other))
        }),
{
    let list = surroundings(pos);
    lemma_queued_all(v.jobs, list, MeshPriority::High);
    let k = (q.z - pos.z + 1) * 3 + (q.x - pos.x + 1);
    assert(list[k] == q);
    assert(mesh_jobs::waits_by(queued_all(v.jobs, list, MeshPriority::High), list[k], 1));
    chunk::law_chunk_key_round_trip(pos, other);
}

/// A chunk is put into the world at the place that its fragments name, and only once the last of
/// them has come in.
pub proof fn law_chunks_are_loaded_where_they_belong(
    v: GameView,
    pos: ChunkPos,
    frag_index: u16,
    frag_total: u16,
    payload: Vec<u8>,
    now_us: u64,
)
    ensures
        ({
            let msg = ServerMessage::FieldSnapshot { pos, frag_index, frag_total, payload };
            let acts = message_acts(v, msg, now_us);
            let a = after_message(v, msg, now_us);
            &&& acts.len() <= 1
            &&& acts.len() == 1 ==> (acts[0] matches Act::LoadField { pos: at, .. } && at == pos)
            &&& acts.len() == 1 ==> !a.parts.contains_key(chunk::chunk_key(pos))
            &&& acts.len() == 0 ==> a.parts.contains_key(chunk::chunk_key(pos))
            &&& a == (GameView { parts: a.parts, ..v })
        }),
{
}

/// The time that has passed is what is missing to the later moment, and none passes backwards.
pub proof fn law_time_passes_forwards(from_us: u64, to_us: u64)
    ensures
        from_us <= to_us ==> from_us + time_between(from_us, to_us) == to_us,
        to_us <= from_us ==> time_between(from_us, to_us) == 0,
{
}

} // verus!
