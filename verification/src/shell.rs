//! The client around a game: the page that is shown, the way into and out of a world, and the
//! notes shown to the player.
use std::collections::HashSet;

use vstd::prelude::*;
use vstd::string::*;

use crate::app_state::{AppState, GameMode};
use crate::chunk::ChunkPos;
use crate::chunk_loader;
use crate::chunk_loader::chunks_around;
use crate::lobby::LobbyState;
use crate::menus::Overlay;
use crate::protocol::RoomEvent;
use crate::room;
use crate::room::{LoadingStep, RoomSession, StepStatus};
use crate::storage::WorldSummary;
use crate::text;
use crate::text::push_decimal;

verus! {

broadcast use vstd::std_specs::hash::group_hash_axioms;

/// How many notes are kept.
pub const MAX_NOTES: usize = 8;

/// How long a note is shown, in microseconds.
pub const NOTE_TIME_US: u64 = 5_000_000;

/// How far the chunks around the spawn point have been prepared.
#[derive(Copy, Clone, Debug, PartialEq, Eq, Structural)]
pub struct PreloadState {
    /// The chunks in sight of the spawn point.
    pub total: usize,
    /// Those of them that are here.
    pub received: usize,
    /// Those of them that are here and have a mesh.
    pub meshed: usize,
    pub active: bool,
}

/// The client around a game.
pub struct Shell {
    pub state: AppState,
    /// The number of the stay in a world. What was begun in an earlier stay is out of date.
    pub world_session_id: u64,
    pub connecting_mode: GameMode,
    pub connecting_room_id: String,
    pub connecting_error: Option<String>,
    pub disconnect_reason: Option<String>,
    pub request_pointer_lock_next: bool,
    pub preload: Option<PreloadState>,
    pub relayed_peers: HashSet<u32>,
    /// Notes with the time at which they came up, the oldest first.
    pub notifications: Vec<(u64, String)>,
}

/// The client around a game, as mathematics.
#[verifier::ext_equal]
pub struct ShellView {
    pub state: AppState,
    pub session: u64,
    pub mode: GameMode,
    pub room: Seq<char>,
    pub error: Option<Seq<char>>,
    pub reason: Option<Seq<char>>,
    pub lock_next: bool,
    pub preload: Option<PreloadState>,
    pub relayed: Set<u32>,
    pub notes: Seq<(u64, Seq<char>)>,
}

/// What an event of the room asks of the rest of the client.
#[derive(Copy, Clone, Debug, PartialEq, Eq, Structural)]
pub enum RoomEffect {
    Nothing,
    /// Let go of the world and of everything drawn of it.
    LeaveWorld,
    /// Take a player out of the world.
    RemovePeer { peer_id: u32 },
}

/// What a click on the game asks for.
#[derive(Copy, Clone, Debug, PartialEq, Eq, Structural)]
pub enum ClickAction {
    Nothing,
    LockPointer,
    /// Keep the settings, let go of all keys, and lock the pointer.
    Resume,
}

/// The content of notes.
pub open spec fn note_texts(notes: Seq<(u64, String)>) -> Seq<(u64, Seq<char>)> {
    Seq::new(notes.len(), |i: int| (notes[i].0, notes[i].1@))
}

/// Notes with one more. The oldest goes when there are too many.
pub open spec fn with_note(notes: Seq<(u64, Seq<char>)>, now_us: u64, message: Seq<char>) -> Seq<
    (u64, Seq<char>),
> {
    let all = notes.push((now_us, message));
    if all.len() > MAX_NOTES {
        all.drop_first()
    } else {
        all
    }
}

/// Whether a note is still shown.
pub open spec fn is_shown(note: (u64, Seq<char>), now_us: u64) -> bool {
    now_us - note.0 < NOTE_TIME_US
}

/// The notes that are still shown, in their order.
pub open spec fn shown(notes: Seq<(u64, Seq<char>)>, now_us: u64) -> Seq<(u64, Seq<char>)>
    decreases notes.len(),
{
    if notes.len() == 0 {
        notes
    } else {
        let rest = shown(notes.drop_last(), now_us);
        if is_shown(notes.last(), now_us) {
            rest.push(notes.last())
        } else {
            rest
        }
    }
}

/// There are never too many notes.
pub proof fn law_notes_stay_few(notes: Seq<(u64, Seq<char>)>, now_us: u64, message: Seq<char>)
    requires
        notes.len() <= MAX_NOTES,
    ensures
        with_note(notes, now_us, message).len() <= MAX_NOTES,
        with_note(notes, now_us, message).last() == (now_us, message),
        shown(notes, now_us).len() <= notes.len(),
    decreases notes.len(),
{
    if notes.len() > 0 {
        law_notes_stay_few(notes.drop_last(), now_us, message);
    }
}

/// How many chunks are in sight.
pub open spec fn chunks_in_sight(render_distance: int) -> int {
    (2 * render_distance + 1) * (2 * render_distance + 1)
}

/// Distances for which the chunks in sight can be counted.
pub open spec fn is_countable(render_distance: int) -> bool {
    -23170 <= render_distance <= 23169
}

/// The number of the stay after another.
pub open spec fn next_session(session: u64) -> u64 {
    if session == u64::MAX {
        0
    } else {
        (session + 1) as u64
    }
}

/// The client after the world was left.
pub open spec fn left_world(v: ShellView) -> ShellView {
    ShellView {
        session: next_session(v.session),
        preload: None,
        lock_next: false,
        relayed: Set::empty(),
        notes: Seq::empty(),
        ..v
    }
}

/// The client about to enter a world.
pub open spec fn cleared(v: ShellView) -> ShellView {
    ShellView { reason: None, error: None, ..left_world(v) }
}

/// The client back in the lobby.
pub open spec fn in_lobby(v: ShellView) -> ShellView {
    ShellView {
        state: AppState::Lobby,
        room: Seq::empty(),
        mode: GameMode::Local,
        ..cleared(v)
    }
}

/// A preparation that has just begun.
pub open spec fn fresh_preload(render_distance: int) -> PreloadState {
    PreloadState {
        total: chunks_in_sight(render_distance) as usize,
        received: 0,
        meshed: 0,
        active: true,
    }
}

/// The shell on the way into a world.
pub open spec fn entering(
    v: ShellView,
    mode: GameMode,
    room: Seq<char>,
    preload: Option<PreloadState>,
) -> ShellView {
    ShellView { state: AppState::Connecting, mode, room, preload, ..cleared(v) }
}

/// The shell after the chunks around the spawn point were counted.
pub open spec fn after_progress(
    v: ShellView,
    render_distance: int,
    received: usize,
    meshed: usize,
    nothing_queued: bool,
) -> ShellView {
    match v.preload {
        Some(p) => {
            let total = chunks_in_sight(render_distance) as usize;
            let done = received >= total && nothing_queued;
            let counted = Some(PreloadState { total, received, meshed, active: !done });
            if !p.active {
                v
            } else if done {
                ShellView {
                    preload: counted,
                    state: AppState::InGame { paused: false, chat_open: false },
                    lock_next: true,
                    ..v
                }
            } else {
                ShellView { preload: counted, ..v }
            }
        },
        None => v,
    }
}

/// What comes of a click on the page: the shell after it, and what is to be done.
pub open spec fn click_outcome(v: ShellView, over_ui: bool) -> (ShellView, ClickAction) {
    if v.state == (AppState::InGame { paused: false, chat_open: false }) {
        (v, ClickAction::LockPointer)
    } else if v.state == (AppState::InGame { paused: true, chat_open: false }) && !over_ui {
        (
            ShellView {
                state: AppState::InGame { paused: false, chat_open: false },
                lock_next: false,
                ..v
            },
            ClickAction::Resume,
        )
    } else {
        (v, ClickAction::Nothing)
    }
}

/// The client after an event of the room.
pub open spec fn after_room_event(
    v: ShellView,
    ev: RoomEvent,
    in_world: bool,
    render_distance: int,
    now_us: u64,
) -> ShellView {
    match ev {
        RoomEvent::Connected => if v.state != AppState::Connecting {
            v
        } else if in_world {
            ShellView { preload: Some(fresh_preload(render_distance)), ..v }
        } else {
            ShellView {
                state: AppState::InGame { paused: false, chat_open: false },
                lock_next: true,
                ..v
            }
        },
        RoomEvent::Disconnected { reason } => ShellView {
            state: AppState::Disconnected,
            reason: Some(reason@),
            error: Some(reason@),
            ..left_world(v)
        },
        RoomEvent::RemoteLeft { peer_id } => ShellView { relayed: v.relayed.remove(peer_id), ..v },
        RoomEvent::SignalingError(message) => ShellView {
            notes: if v.state is InGame {
                with_note(v.notes, now_us, message@)
            } else {
                v.notes
            },
            error: Some(message@),
            ..v
        },
        RoomEvent::PeerCount(_) => v,
        RoomEvent::PeerRelayed { peer_id } => ShellView { relayed: v.relayed.insert(peer_id), ..v },
    }
}

/// What an event of the room asks of the rest of the client.
pub open spec fn room_effect(ev: RoomEvent) -> RoomEffect {
    match ev {
        RoomEvent::Disconnected { .. } => RoomEffect::LeaveWorld,
        RoomEvent::RemoteLeft { peer_id } => RoomEffect::RemovePeer { peer_id },
        _ => RoomEffect::Nothing,
    }
}

/// How many chunks of a list are there.
pub open spec fn count_present<F: Fn(ChunkPos) -> bool>(list: Seq<ChunkPos>, present: F) -> nat
    decreases list.len(),
{
    if list.len() == 0 {
        0
    } else {
        count_present(list.drop_last(), present) + if chunk_loader::is_meshed(
            present,
            list.last(),
        ) {
            1nat
        } else {
            0nat
        }
    }
}

/// How many chunks of a list are there and have a mesh.
pub open spec fn count_ready<F: Fn(ChunkPos) -> bool, G: Fn(ChunkPos) -> bool>(
    list: Seq<ChunkPos>,
    present: F,
    meshed: G,
) -> nat
    decreases list.len(),
{
    if list.len() == 0 {
        0
    } else {
        count_ready(list.drop_last(), present, meshed) + if chunk_loader::is_meshed(
            present,
            list.last(),
        ) && chunk_loader::is_meshed(meshed, list.last()) {
            1nat
        } else {
            0nat
        }
    }
}

/// No more chunks are counted than there are, and no more meshes than chunks.
pub proof fn law_counts_are_bounded<F: Fn(ChunkPos) -> bool, G: Fn(ChunkPos) -> bool>(
    list: Seq<ChunkPos>,
    present: F,
    meshed: G,
)
    ensures
        count_ready(list, present, meshed) <= count_present(list, present) <= list.len(),
    decreases list.len(),
{
    if list.len() > 0 {
        law_counts_are_bounded(list.drop_last(), present, meshed);
    }
}

/// Counts the chunks in sight of a center that are there, and those of them that have a mesh.
pub fn count_chunks<F: Fn(ChunkPos) -> bool, G: Fn(ChunkPos) -> bool>(
    center: ChunkPos,
    render_distance: i32,
    present: &F,
    meshed: &G,
) -> (r: (usize, usize))
    requires
        chunk_loader::in_world(center),
        chunk_loader::is_distance(render_distance as int),
        chunk_loader::is_mesh_lookup(*present),
        chunk_loader::is_mesh_lookup(*meshed),
    ensures
        r.0 == count_present(chunk_loader::square(center, render_distance as int), *present),
        r.1 == count_ready(
            chunk_loader::square(center, render_distance as int),
            *present,
            *meshed,
        ),
{
    let list = chunks_around(center, render_distance);
    let mut received: usize = 0;
    let mut ready: usize = 0;
    let mut i: usize = 0;
    proof {
        assert(list@.take(0) =~= Seq::empty());
    }
    while i < list.len()
        invariant
            i <= list@.len(),
            ready <= received <= i,
            chunk_loader::is_mesh_lookup(*present),
            chunk_loader::is_mesh_lookup(*meshed),
            received == count_present(list@.take(i as int), *present),
            ready == count_ready(list@.take(i as int), *present, *meshed),
        decreases list@.len() - i,
    {
        let pos = list[i];
        proof {
            assert(list@.take(i + 1).drop_last() =~= list@.take(i as int));
        }
        if present(pos) {
            received = received + 1;
            if meshed(pos) {
                ready = ready + 1;
            }
        }
        i = i + 1;
    }
    proof {
        assert(list@.take(i as int) =~= list@);
    }
    (received, ready)
}

fn sight_count(render_distance: i32) -> (r: usize)
    requires
        is_countable(render_distance as int),
    ensures
        r == chunks_in_sight(render_distance as int),
{
    let side: i32 = 2 * render_distance + 1;
    proof {
        assert(0 <= side * side <= 46339 * 46339) by (nonlinear_arith)
            requires
                -46339 <= side <= 46339,
        ;
    }
    (side * side) as usize
}

impl PreloadState {
    /// A preparation that has just begun.
    pub fn begin(render_distance: i32) -> (r: PreloadState)
        requires
            is_countable(render_distance as int),
        ensures
            r == fresh_preload(render_distance as int),
    {
        PreloadState { total: sight_count(render_distance), received: 0, meshed: 0, active: true }
    }
}

impl Default for PreloadState {
    fn default() -> (r: PreloadState)
        ensures
            r == (PreloadState { total: 0, received: 0, meshed: 0, active: false }),
    {
        PreloadState { total: 0, received: 0, meshed: 0, active: false }
    }
}

/// The line about the chunks around the spawn point.
pub open spec fn preload_label(preload: Option<PreloadState>) -> Seq<char> {
    match preload {
        Some(p) => if p.active {
            "Loading spawn chunks ("@ + text::decimal(p.received as nat) + "/"@ + text::decimal(
                p.total as nat,
            ) + ")"@
        } else {
            "Loading spawn chunks"@
        },
        None => "Loading spawn chunks"@,
    }
}

/// The state of that line.
pub open spec fn preload_status(preload: Option<PreloadState>) -> StepStatus {
    match preload {
        Some(p) => if p.active {
            StepStatus::InProgress
        } else {
            StepStatus::Done
        },
        None => StepStatus::Pending,
    }
}

/// How many lines about the connection are shown: none for a player alone, nor without one.
pub open spec fn network_lines(mode: GameMode, session: Option<RoomSession>) -> int {
    if mode == GameMode::Local || session is None {
        0
    } else {
        room::STEP_COUNT as int
    }
}

impl View for Shell {
    type V = ShellView;

    open spec fn view(&self) -> ShellView {
        ShellView {
            state: self.state,
            session: self.world_session_id,
            mode: self.connecting_mode,
            room: self.connecting_room_id@,
            error: text::content_of(self.connecting_error),
            reason: text::content_of(self.disconnect_reason),
            lock_next: self.request_pointer_lock_next,
            preload: self.preload,
            relayed: self.relayed_peers@,
            notes: note_texts(self.notifications@),
        }
    }
}

impl Shell {
    /// The client when it starts: in the lobby.
    pub fn new() -> (r: Shell)
        ensures
            r@ == (ShellView {
                state: AppState::Lobby,
                session: 0,
                mode: GameMode::Local,
                room: Seq::empty(),
                error: None,
                reason: None,
                lock_next: false,
                preload: None,
                relayed: Set::empty(),
                notes: Seq::empty(),
            }),
    {
        let r = Shell {
            state: AppState::Lobby,
            world_session_id: 0,
            connecting_mode: GameMode::Local,
            connecting_room_id: String::new(),
            connecting_error: None,
            disconnect_reason: None,
            request_pointer_lock_next: false,
            preload: None,
            relayed_peers: HashSet::new(),
            notifications: Vec::new(),
        };
        proof {
            assert(r@.room =~= Seq::empty());
            assert(r@.notes =~= Seq::empty());
        }
        r
    }

    /// Begins another stay: what was begun in earlier ones is out of date now.
    pub fn bump_world_session(&mut self) -> (r: u64)
        ensures
            r == next_session(old(self)@.session),
            final(self)@ == (ShellView { session: r, ..old(self)@ }),
    {
        self.world_session_id = self.world_session_id.wrapping_add(1);
        self.world_session_id
    }

    /// Leaves the world.
    pub fn clear_world_runtime(&mut self) -> (r: u64)
        ensures
            final(self)@ == left_world(old(self)@),
            r == final(self)@.session,
    {
        let session: u64 = self.bump_world_session();
        self.preload = None;
        self.request_pointer_lock_next = false;
        self.relayed_peers = HashSet::new();
        self.notifications = Vec::new();
        proof {
            assert(self@.notes =~= Seq::empty());
        }
        session
    }

    /// Gets ready to enter a world.
    pub fn prepare_world_start(&mut self) -> (r: u64)
        ensures
            final(self)@ == cleared(old(self)@),
            r == final(self)@.session,
    {
        let session: u64 = self.clear_world_runtime();
        self.disconnect_reason = None;
        self.connecting_error = None;
        session
    }

    /// Goes back to the lobby, which will read the list of saved worlds again.
    pub fn return_to_lobby(&mut self, lobby: &mut LobbyState)
        ensures
            final(self)@ == in_lobby(old(self)@),
            final(lobby).saved_worlds@ == Seq::<WorldSummary>::empty(),
            *final(lobby) == (LobbyState {
                saves_loaded: false,
                saves_loading: false,
                saved_worlds: final(lobby).saved_worlds,
                selected_save: None,
                ..*old(lobby)
            }),
    {
        self.prepare_world_start();
        self.state = AppState::Lobby;
        self.connecting_room_id = String::new();
        self.connecting_mode = GameMode::Local;
        lobby.mark_saves_stale();
        proof {
            assert(self@.room =~= Seq::empty());
        }
    }

    /// Enters a world alone: the chunks around the spawn point are prepared at once.
    pub fn enter_local(&mut self, render_distance: i32) -> (r: u64)
        requires
            is_countable(render_distance as int),
        ensures
            final(self)@ == entering(
                old(self)@,
                GameMode::Local,
                Seq::empty(),
                Some(fresh_preload(render_distance as int)),
            ),
            final(self)@ == (ShellView {
                state: AppState::Connecting,
                mode: GameMode::Local,
                room: Seq::empty(),
                preload: Some(fresh_preload(render_distance as int)),
                ..cleared(old(self)@)
            }),
            r == final(self)@.session,
    {
        let session: u64 = self.prepare_world_start();
        self.connecting_mode = GameMode::Local;
        self.connecting_room_id = String::new();
        self.preload = Some(PreloadState::begin(render_distance));
        self.state = AppState::Connecting;
        proof {
            assert(self@.room =~= Seq::empty());
        }
        session
    }

    /// Enters a room: its world is prepared once the connection stands.
    pub fn enter_room(&mut self, mode: GameMode, room_id: &str) -> (r: u64)
        ensures
            final(self)@ == entering(old(self)@, mode, room_id@, None),
            final(self)@ == (ShellView {
                state: AppState::Connecting,
                mode,
                room: room_id@,
                ..cleared(old(self)@)
            }),
            r == final(self)@.session,
    {
        let session: u64 = self.prepare_world_start();
        self.state = AppState::Connecting;
        self.connecting_mode = mode;
        self.connecting_room_id = room_id.to_owned();
        session
    }

    /// Shows a note to the player.
    pub fn push_notification(&mut self, now_us: u64, message: String)
        ensures
            final(self)@ == (ShellView {
                notes: with_note(old(self)@.notes, now_us, message@),
                ..old(self)@
            }),
    {
        let ghost before = self@;
        let ghost words = message@;
        self.notifications.push((now_us, message));
        proof {
            assert(self@.notes =~= before.notes.push((now_us, words)));
        }
        if self.notifications.len() > MAX_NOTES {
            let ghost all = self@.notes;
            self.notifications.remove(0);
            proof {
                assert(self@.notes =~= all.drop_first());
            }
        }
    }

    /// The notes that are still shown. The others are forgotten.
    pub fn current_notes(&mut self, now_us: u64) -> (r: Vec<String>)
        ensures
            final(self)@ == (ShellView {
                notes: shown(old(self)@.notes, now_us),
                ..old(self)@
            }),
            r@.len() == final(self)@.notes.len(),
            forall|i: int| 0 <= i < r@.len() ==> (#[trigger] r@[i])@ == final(self)@.notes[i].1,
    {
        let ghost before = self@;
        let mut kept: Vec<(u64, String)> = Vec::new();
        let mut out: Vec<String> = Vec::new();
        let mut i: usize = 0;
        proof {
            assert(before.notes.take(0) =~= Seq::empty());
            assert(note_texts(kept@) =~= Seq::empty());
        }
        while i < self.notifications.len()
            invariant
                i <= self.notifications@.len(),
                self@ == before,
                note_texts(kept@) == shown(before.notes.take(i as int), now_us),
                out@.len() == kept@.len(),
                forall|k: int| 0 <= k < out@.len() ==> (#[trigger] out@[k])@ == kept@[k].1@,
            decreases self.notifications@.len() - i,
        {
            let ghost earlier = kept@;
            proof {
                assert(before.notes.take(i + 1).drop_last() =~= before.notes.take(i as int));
                assert(before.notes.take(i + 1).last() == note_texts(self.notifications@)[i as int]);
            }
            let at: u64 = self.notifications[i].0;
            if now_us < at || now_us - at < NOTE_TIME_US {
                let message = self.notifications[i].1.clone();
                out.push(message.clone());
                kept.push((at, message));
                proof {
                    assert(note_texts(kept@) =~= note_texts(earlier).push((at, message@)));
                }
            }
            i = i + 1;
        }
        proof {
            assert(before.notes.take(i as int) =~= before.notes);
        }
        self.notifications = kept;
        out
    }

    /// Takes up an event of the room.
    pub fn apply_room_event(
        &mut self,
        ev: RoomEvent,
        in_world: bool,
        render_distance: i32,
        now_us: u64,
    ) -> (r: RoomEffect)
        requires
            is_countable(render_distance as int),
        ensures
            final(self)@ == after_room_event(
                old(self)@,
                ev,
                in_world,
                render_distance as int,
                now_us,
            ),
            r == room_effect(ev),
    {
        match ev {
            RoomEvent::Connected => {
                if self.state == AppState::Connecting {
                    if in_world {
                        self.preload = Some(PreloadState::begin(render_distance));
                    } else {
                        self.state = AppState::ingame_default();
                        self.request_pointer_lock_next = true;
                    }
                }
                RoomEffect::Nothing
            },
            RoomEvent::Disconnected { reason } => {
                self.clear_world_runtime();
                self.disconnect_reason = Some(reason.clone());
                self.connecting_error = Some(reason);
                self.state = AppState::Disconnected;
                RoomEffect::LeaveWorld
            },
            RoomEvent::RemoteLeft { peer_id } => {
                self.relayed_peers.remove(&peer_id);
                RoomEffect::RemovePeer { peer_id }
            },
            RoomEvent::SignalingError(message) => {
                if self.state.is_in_game() {
                    self.push_notification(now_us, message.clone());
                }
                self.connecting_error = Some(message);
                RoomEffect::Nothing
            },
            RoomEvent::PeerCount(_) => RoomEffect::Nothing,
            RoomEvent::PeerRelayed { peer_id } => {
                self.relayed_peers.insert(peer_id);
                RoomEffect::Nothing
            },
        }
    }

    /// Takes up how many of the chunks around the spawn point are there. Once all are there and
    /// nothing waits to be meshed, the game begins.
    pub fn preload_progress(
        &mut self,
        render_distance: i32,
        received: usize,
        meshed: usize,
        nothing_queued: bool,
    )
        requires
            is_countable(render_distance as int),
        ensures
            final(self)@ == after_progress(
                old(self)@,
                render_distance as int,
                received,
                meshed,
                nothing_queued,
            ),
            match old(self)@.preload {
                Some(p) => if !p.active {
                    final(self)@ == old(self)@
                } else if received >= chunks_in_sight(render_distance as int) && nothing_queued {
                    final(self)@ == (ShellView {
                        preload: Some(
                            PreloadState {
                                total: chunks_in_sight(render_distance as int) as usize,
                                received,
                                meshed,
                                active: false,
                            },
                        ),
                        state: AppState::InGame { paused: false, chat_open: false },
                        lock_next: true,
                        ..old(self)@
                    })
                } else {
                    final(self)@ == (ShellView {
                        preload: Some(
                            PreloadState {
                                total: chunks_in_sight(render_distance as int) as usize,
                                received,
                                meshed,
                                active: true,
                            },
                        ),
                        ..old(self)@
                    })
                },
                None => final(self)@ == old(self)@,
            },
    {
        if let Some(p) = self.preload {
            if p.active {
                let total: usize = sight_count(render_distance);
                let done = received >= total && nothing_queued;
                self.preload = Some(PreloadState { total, received, meshed, active: !done });
                if done {
                    self.state = AppState::ingame_default();
                    self.request_pointer_lock_next = true;
                }
            }
        }
    }

    /// The lines shown while connecting: those of the connection, and one about the chunks around
    /// the spawn point.
    pub fn connecting_steps(&self, session: Option<&RoomSession>) -> (r: Vec<LoadingStep>)
        ensures
            ({
                let n = network_lines(
                    self@.mode,
                    match session {
                        Some(s) => Some(*s),
                        None => None,
                    },
                );
                &&& r@.len() == n + 1
                &&& forall|i: int|
                    0 <= i < n ==> (#[trigger] r@[i]).label@ == room::step_label(i) && r@[i].status
                        == room::step_status(*session->0, i)
                &&& r@[n].label@ == preload_label(self@.preload)
                &&& r@[n].status == preload_status(self@.preload)
            }),
    {
        let mut steps: Vec<LoadingStep> = Vec::new();
        if self.connecting_mode != GameMode::Local {
            if let Some(s) = session {
                steps = s.loading_steps();
            }
        }
        let status = match self.preload {
            Some(p) => if p.active {
                StepStatus::InProgress
            } else {
                StepStatus::Done
            },
            None => StepStatus::Pending,
        };
        let label = self.preload_line();
        steps.push(LoadingStep { label, status });
        steps
    }

    fn preload_line(&self) -> (r: String)
        ensures
            r@ == preload_label(self@.preload),
    {
        match self.preload {
            Some(p) => if p.active {
                let mut out = "Loading spawn chunks (".to_owned();
                push_decimal(&mut out, p.received as u64);
                out.append("/");
                push_decimal(&mut out, p.total as u64);
                out.append(")");
                out
            } else {
                "Loading spawn chunks".to_owned()
            },
            None => "Loading spawn chunks".to_owned(),
        }
    }

    /// Takes up a click on the game. Beside the menu it resumes the game.
    pub fn on_click(&mut self, over_ui: bool) -> (r: ClickAction)
        ensures
            (final(self)@, r) == click_outcome(old(self)@, over_ui),
            if old(self)@.state == (AppState::InGame { paused: false, chat_open: false }) {
                r == ClickAction::LockPointer && final(self)@ == old(self)@
            } else if old(self)@.state == (AppState::InGame { paused: true, chat_open: false })
                && !over_ui {
                r == ClickAction::Resume && final(self)@ == (ShellView {
                    state: AppState::InGame { paused: false, chat_open: false },
                    lock_next: false,
                    ..old(self)@
                })
            } else {
                r == ClickAction::Nothing && final(self)@ == old(self)@
            },
    {
        match self.state {
            AppState::InGame { paused, chat_open } => if chat_open {
                ClickAction::Nothing
            } else if !paused {
                ClickAction::LockPointer
            } else if !over_ui {
                self.state = AppState::ingame_default();
                self.request_pointer_lock_next = false;
                ClickAction::Resume
            } else {
                ClickAction::Nothing
            },
            _ => ClickAction::Nothing,
        }
    }

    /// Ends a frame of the game with what is laid over it now.
    pub fn end_game_frame(&mut self, overlay: Overlay)
        ensures
            final(self)@ == (ShellView {
                state: AppState::InGame { paused: overlay.paused, chat_open: overlay.chat_open },
                lock_next: old(self)@.lock_next || overlay.lock_pointer,
                ..old(self)@
            }),
    {
        self.state = AppState::InGame { paused: overlay.paused, chat_open: overlay.chat_open };
        if overlay.lock_pointer {
            self.request_pointer_lock_next = true;
        }
    }

    /// Whether the pointer is to be locked now; it is asked for once.
    pub fn take_lock_request(&mut self) -> (r: bool)
        ensures
            r == old(self)@.lock_next,
            final(self)@ == (ShellView { lock_next: false, ..old(self)@ }),
    {
        let wanted = self.request_pointer_lock_next;
        self.request_pointer_lock_next = false;
        wanted
    }
}

/// Leaving a world begins a new session and takes everything of the old one with it: nothing is
/// loaded, no player is relayed and no note is shown. Where the player is, is left to the caller.
pub proof fn law_a_world_is_left_with_everything(v: ShellView)
    ensures
        left_world(v).session != v.session,
        v.session < u64::MAX ==> left_world(v).session == v.session + 1,
        left_world(v).preload is None && !left_world(v).lock_next,
        left_world(v).relayed == Set::<u32>::empty(),
        left_world(v).notes.len() == 0,
        left_world(v).state == v.state && left_world(v).mode == v.mode,
        left_world(v).room == v.room,
        left_world(v).error == v.error && left_world(v).reason == v.reason,
        cleared(v).error is None && cleared(v).reason is None,
        cleared(v).session == left_world(v).session,
        in_lobby(v).state == AppState::Lobby && in_lobby(v).room.len() == 0,
        in_lobby(v).mode == GameMode::Local,
        in_lobby(v).session == left_world(v).session,
        in_lobby(v).error is None && in_lobby(v).reason is None,
        in_lobby(v).preload is None && in_lobby(v).notes.len() == 0,
{
}

/// A player who goes into a world waits for it, knows its room and has left all of the last one.
pub proof fn law_a_world_is_entered_afresh(
    v: ShellView,
    mode: GameMode,
    room: Seq<char>,
    preload: Option<PreloadState>,
)
    ensures
        ({
            let w = entering(v, mode, room, preload);
            &&& w.state == AppState::Connecting
            &&& w.mode == mode && w.room == room && w.preload == preload
            &&& w.session != v.session
            &&& w.error is None && w.reason is None
            &&& !w.lock_next && w.notes.len() == 0 && w.relayed == Set::<u32>::empty()
        }),
{
}

/// As many chunks are in sight as stand in a square with the player in the middle.
pub proof fn law_a_square_is_in_sight(d: int)
    requires
        0 <= d,
    ensures
        chunks_in_sight(0) == 1,
        chunks_in_sight(d + 1) == chunks_in_sight(d) + 8 * (d + 1),
        fresh_preload(d).received == 0 && fresh_preload(d).meshed == 0,
        fresh_preload(d).active,
{
    let a = 2 * d + 1;
    let b = 2 * (d + 1) + 1;
    assert(b * b == a * a + 8 * (d + 1)) by (nonlinear_arith)
        requires
            a == 2 * d + 1,
            b == 2 * (d + 1) + 1,
    ;
    assert(chunks_in_sight(d) == a * a && chunks_in_sight(d + 1) == b * b);
    assert(chunks_in_sight(0) == 1) by (nonlinear_arith);
}

/// Play begins when every chunk in sight has come and nothing waits to be meshed, and not before.
/// The counts are kept either way, and a world that has been loaded is not loaded again.
pub proof fn law_play_begins_when_all_is_there(
    v: ShellView,
    d: int,
    received: usize,
    meshed: usize,
    nothing_queued: bool,
)
    requires
        0 <= d,
        is_countable(d),
    ensures
        ({
            let w = after_progress(v, d, received, meshed, nothing_queued);
            let loading = v.preload matches Some(p) && p.active;
            let all = received >= (2 * d + 1) * (2 * d + 1) && nothing_queued;
            &&& !loading ==> w == v
            &&& loading ==> (w.preload matches Some(p) && p.received == received && p.meshed
                == meshed && p.total == (2 * d + 1) * (2 * d + 1) && p.active == !all)
            &&& loading && all ==> w.state == (AppState::InGame { paused: false, chat_open: false })
                && w.lock_next
            &&& loading && !all ==> w.state == v.state && w.lock_next == v.lock_next
            &&& w.session == v.session && w.mode == v.mode && w.room == v.room
            &&& w.notes == v.notes && w.relayed == v.relayed
            &&& w.error == v.error && w.reason == v.reason
            &&& after_progress(w, d, received, meshed, nothing_queued) == w
        }),
{
    assert((2 * d + 1) * (2 * d + 1) <= 46339 * 46339 && 0 <= (2 * d + 1) * (2 * d + 1))
        by (nonlinear_arith)
        requires
            0 <= d <= 23169,
    ;
}

/// A click in play asks for the pointer, a click beside the menu resumes play, and no other click
/// does anything.
pub proof fn law_clicks_go_back_to_play(v: ShellView, over_ui: bool)
    ensures
        ({
            let (w, action) = click_outcome(v, over_ui);
            &&& action == ClickAction::LockPointer <==> v.state == (AppState::InGame {
                paused: false,
                chat_open: false,
            })
            &&& action == ClickAction::Resume <==> v.state == (AppState::InGame {
                paused: true,
                chat_open: false,
            }) && !over_ui
            &&& action != ClickAction::Resume ==> w == v
            &&& action == ClickAction::Resume ==> w.state == (AppState::InGame {
                paused: false,
                chat_open: false,
            }) && !w.lock_next && w.session == v.session && w.notes == v.notes
            &&& click_outcome(w, over_ui).1 == (if action == ClickAction::Nothing {
                ClickAction::Nothing
            } else {
                ClickAction::LockPointer
            })
        }),
{
}

/// A connection is of use only to someone who waits for it: with a world it starts the loading,
/// without one it starts the game.
pub proof fn law_a_connection_starts_the_game(v: ShellView, in_world: bool, d: int, now_us: u64)
    ensures
        ({
            let w = after_room_event(v, RoomEvent::Connected, in_world, d, now_us);
            &&& v.state != AppState::Connecting ==> w == v
            &&& v.state == AppState::Connecting && in_world ==> w.preload == Some(fresh_preload(d))
                && w.state == AppState::Connecting && w.lock_next == v.lock_next
            &&& v.state == AppState::Connecting && !in_world ==> w.state == (AppState::InGame {
                paused: false,
                chat_open: false,
            }) && w.lock_next && w.preload == v.preload
            &&& w.session == v.session && w.notes == v.notes && w.relayed == v.relayed
            &&& room_effect(RoomEvent::Connected) == RoomEffect::Nothing
        }),
{
}

/// A lost connection ends the world and is told with its reason.
pub proof fn law_a_lost_connection_is_told(
    v: ShellView,
    reason: String,
    in_world: bool,
    d: int,
    now_us: u64,
)
    ensures
        ({
            let ev = RoomEvent::Disconnected { reason };
            let w = after_room_event(v, ev, in_world, d, now_us);
            &&& w.state == AppState::Disconnected
            &&& w.reason == Some(reason@) && w.error == Some(reason@)
            &&& w.session != v.session && w.preload is None && !w.lock_next
            &&& w.notes.len() == 0 && w.relayed == Set::<u32>::empty()
            &&& room_effect(ev) == RoomEffect::LeaveWorld
        }),
{
}

/// Players who are relayed are known until they leave, whoever else comes and goes, and only
/// someone who leaves is taken out of the world.
pub proof fn law_relayed_players_are_known(
    v: ShellView,
    id: u32,
    other: u32,
    in_world: bool,
    d: int,
    now_us: u64,
)
    requires
        id != other,
    ensures
        ({
            let came = after_room_event(
                v,
                RoomEvent::PeerRelayed { peer_id: id },
                in_world,
                d,
                now_us,
            );
            let went = after_room_event(
                came,
                RoomEvent::RemoteLeft { peer_id: id },
                in_world,
                d,
                now_us,
            );
            &&& came.relayed.contains(id) && !went.relayed.contains(id)
            &&& came.relayed.contains(other) == v.relayed.contains(other)
            &&& went.relayed.contains(other) == v.relayed.contains(other)
            &&& !v.relayed.contains(id) ==> went.relayed =~= v.relayed
            &&& came.state == v.state && went.state == v.state
            &&& came.session == v.session && went.session == v.session
            &&& room_effect(RoomEvent::RemoteLeft { peer_id: id }) == (RoomEffect::RemovePeer {
                peer_id: id,
            })
            &&& room_effect(RoomEvent::PeerRelayed { peer_id: id }) == RoomEffect::Nothing
        }),
{
}

/// Trouble is kept as the latest error and shown as a note in play alone.
pub proof fn law_trouble_is_shown_in_play(
    v: ShellView,
    message: String,
    in_world: bool,
    d: int,
    now_us: u64,
)
    requires
        v.notes.len() <= MAX_NOTES,
    ensures
        ({
            let ev = RoomEvent::SignalingError(message);
            let w = after_room_event(v, ev, in_world, d, now_us);
            &&& w.error == Some(message@)
            &&& v.state is InGame ==> w.notes.last() == (now_us, message@) && w.notes.len() > 0
            &&& !(v.state is InGame) ==> w.notes == v.notes
            &&& w.state == v.state && w.session == v.session && w.reason == v.reason
            &&& w.relayed == v.relayed && w.preload == v.preload
            &&& room_effect(ev) == RoomEffect::Nothing
        }),
{
}

/// Notes come in order, and only the oldest goes when there are too many.
pub proof fn law_the_oldest_note_goes(
    notes: Seq<(u64, Seq<char>)>,
    now_us: u64,
    message: Seq<char>,
)
    requires
        notes.len() <= 8,
    ensures
        notes.len() < 8 ==> with_note(notes, now_us, message) == notes.push((now_us, message)),
        notes.len() == 8 ==> with_note(notes, now_us, message) == notes.drop_first().push(
            (now_us, message),
        ),
{
    assert(notes.len() == 8 ==> with_note(notes, now_us, message) =~= notes.drop_first().push(
        (now_us, message),
    ));
}

/// A note is shown for five seconds. What is shown are exactly those notes, in their order.
pub proof fn law_notes_are_shown_for_five_seconds(
    notes: Seq<(u64, Seq<char>)>,
    note: (u64, Seq<char>),
    i: int,
    now_us: u64,
)
    ensures
        is_shown(note, now_us) <==> now_us < note.0 + 5_000_000,
        is_shown(note, now_us) ==> shown(notes.push(note), now_us) == shown(notes, now_us).push(
            note,
        ),
        !is_shown(note, now_us) ==> shown(notes.push(note), now_us) == shown(notes, now_us),
        0 <= i < shown(notes, now_us).len() ==> is_shown(shown(notes, now_us)[i], now_us)
            && notes.contains(shown(notes, now_us)[i]),
        0 <= i < notes.len() && is_shown(notes[i], now_us) ==> shown(notes, now_us).contains(
            notes[i],
        ),
    decreases notes.len(),
{
    assert(notes.push(note).drop_last() =~= notes);
    if notes.len() > 0 {
        let t = notes.drop_last();
        let rest = shown(t, now_us);
        let all = shown(notes, now_us);
        law_notes_are_shown_for_five_seconds(t, note, i, now_us);
        if 0 <= i < all.len() {
            if i < rest.len() {
                assert(all[i] == rest[i]);
                let k = choose|k: int| 0 <= k < t.len() && t[k] == rest[i];
                assert(notes[k] == all[i]);
            } else {
                assert(notes[notes.len() - 1] == all[i]);
            }
        }
        if 0 <= i < notes.len() && is_shown(notes[i], now_us) {
            if i < t.len() {
                assert(t[i] == notes[i]);
                let k = choose|k: int| 0 <= k < rest.len() && rest[k] == notes[i];
                assert(all[k] == notes[i]);
            } else {
                assert(all[all.len() - 1] == notes[i]);
            }
        }
    }
}

/// A chunk is counted as received when it is there, and as ready when it is meshed as well.
pub proof fn law_chunks_are_counted_one_by_one<F: Fn(ChunkPos) -> bool, G: Fn(ChunkPos) -> bool>(
    list: Seq<ChunkPos>,
    pos: ChunkPos,
    present: F,
    meshed: G,
)
    ensures
        ({
            let here = chunk_loader::is_meshed(present, pos);
            let drawn = chunk_loader::is_meshed(meshed, pos);
            &&& here ==> count_present(list.push(pos), present) == count_present(list, present) + 1
            &&& !here ==> count_present(list.push(pos), present) == count_present(list, present)
            &&& here && drawn ==> count_ready(list.push(pos), present, meshed) == count_ready(
                list,
                present,
                meshed,
            ) + 1
            &&& !(here && drawn) ==> count_ready(list.push(pos), present, meshed) == count_ready(
                list,
                present,
                meshed,
            )
            &&& count_present(Seq::empty(), present) == 0
            &&& count_ready(Seq::empty(), present, meshed) == 0
        }),
{
    assert(list.push(pos).drop_last() =~= list);
}

/// The line on loading is done when the loading has ended, under way while it goes on, and open
/// before it has begun.
pub proof fn law_the_loading_line_follows_the_loading(p: PreloadState)
    ensures
        preload_status(None) == StepStatus::Pending,
        preload_status(Some(p)) == StepStatus::InProgress <==> p.active,
        preload_status(Some(p)) == StepStatus::Done <==> !p.active,
        !p.active ==> preload_label(Some(p)) == preload_label(None),
        p.active ==> preload_label(Some(p)) == preload_label(None) + " ("@ + text::decimal(
            p.received as nat,
        ) + "/"@ + text::decimal(p.total as nat) + ")"@,
{
    reveal_strlit("Loading spawn chunks (");
    reveal_strlit("Loading spawn chunks");
    reveal_strlit(" (");
    assert("Loading spawn chunks ("@ =~= "Loading spawn chunks"@ + " ("@);
}

/// The steps of the network are shown for a room alone.
pub proof fn law_network_lines_belong_to_rooms(mode: GameMode, session: Option<RoomSession>)
    ensures
        mode == GameMode::Local ==> network_lines(mode, session) == 0,
        session is None ==> network_lines(mode, session) == 0,
        mode != GameMode::Local && session is Some ==> network_lines(mode, session) > 0,
{
}

} // verus!
