use std::collections::HashSet;

use voxweb::actions::{place_target, role_suffix, BlockHit};
use voxweb::app_state::{AppState, CameraMode, GameMode};
use voxweb::block::{BlockID, MaterialCell};
use voxweb::chat::{single_line_text, speaker, ChatHistory, ChatKind, ChatUiAction};
use voxweb::chunk::{ChunkPos, Position};
use voxweb::chunk_assembler::ChunkAssembler;
use voxweb::chunk_loader::{affected_chunks, chebyshev_distance, chunks_around, ChunkLoader};
use voxweb::events::{
    forward_keydown, map_key, map_web_key_to_egui, route_key, route_mouse, KeyModifiers,
    MouseRoute, PointerButton, UiKey,
};
use voxweb::game::{cell_moves, GameAction, GameSession};
use voxweb::hotbar::{block_label, block_swatch, Hotbar};
use voxweb::hud::{
    available_for_world, chunks_line, depth_line, drawing_line, hint_line, movement_line,
    network_line, relay_line, save_error_line, save_line,
};
use voxweb::input::{neutral_input, steering, InputState, KeyCode, Steering};
use voxweb::interp::{Bracket, PlayerInterp};
use voxweb::lobby::{
    connecting_title, parse_seed, random_seed, room_id_of_bytes, seed_of_bytes, validate_room_id,
    world_label, LobbyAction, LobbyState,
};
use voxweb::menus::{overlay_after_keys, overlay_after_ui, pause_action_of, PauseAction};
use voxweb::mesh_jobs::{MeshJobQueue, MeshPriority, MeshRunStats};
use voxweb::object::{CollisionProxy, FreeObject, ObjectInFlight, Transform};
use voxweb::persistence::{
    chunks_to_mark, enqueue_chunk_and_neighbors, missing_positions, LoadOutcome, PumpStep,
    SaveNote, SaveState,
};
use voxweb::prediction::{id_after, InputHistory, PendingAction, PendingActions, PendingKind};
use voxweb::protocol::{
    AckReason, ClientMessage, PlayerEntry, PlayerSnapshot, RoomEvent, ServerMessage, Vec3Bits,
};
use voxweb::raycast::{face_from_normal, next_axis, Axis, Face, GridRay, RayCell};
use voxweb::room::{RoomSession, StepStatus};
use voxweb::shell::{count_chunks, ClickAction, RoomEffect, Shell};
use voxweb::storage::{
    chunk_filename, format_storage_bytes, parse_chunk_filename, parse_world_key, seed_from_key,
    MetaRecord, QuotaInfo, StorageError, StorageOverview, WorldRecord, WorldSummary,
};
use voxweb::text::{
    decimal_text, is_control_char, is_white_space, parse_u64, split_ranges, trim_text,
};
use voxweb::world_records::{error_of_name, format_time, size_snapshot, sort_newest_first};

const ZERO: Vec3Bits = Vec3Bits { x: 0, y: 0, z: 0 };
const STONE: BlockID = BlockID(BlockID::STONE);
const DIRT: BlockID = BlockID(BlockID::DIRT);

fn at(x: u32) -> Vec3Bits {
    Vec3Bits { x, y: 0, z: 0 }
}

fn guest() -> GameSession {
    let mut g = GameSession::new(GameMode::Remote, "Me".into(), 4);
    g.apply_server_message(
        ServerMessage::Welcome {
            entity_id: 5,
            server_tick: 0,
            world_seed: 1,
            host_entity_id: 1,
            host_render_distance: 3,
            players: vec![
                PlayerEntry { entity_id: 1, display_name: "Host".into() },
                PlayerEntry { entity_id: 5, display_name: "Me".into() },
                PlayerEntry { entity_id: 9, display_name: "Zoe".into() },
            ],
        },
        0,
    );
    g
}

fn hit() -> Option<BlockHit> {
    Some(BlockHit { pos: Position::new(3, 70, 3), normal: Position::new(0, 1, 0) })
}

#[test]
fn numbers_are_written_and_read() {
    for n in [0, 7, 10, 99, 100, 4294967296, u64::MAX] {
        assert_eq!(decimal_text(n), n.to_string());
        assert_eq!(parse_u64(&decimal_text(n)), Some(n));
    }
    assert_eq!(parse_u64("+5"), "+5".parse::<u64>().ok());
    assert_eq!(parse_u64("007"), Some(7));
    assert_eq!(parse_u64("18446744073709551616"), None);
    assert_eq!(parse_u64(""), None);
    assert_eq!(parse_u64("1 "), None);
}

#[test]
fn texts_are_trimmed_at_both_ends() {
    for s in ["", " ", " a b ", "\u{2003}x\u{a0}", "\tq\n", "none", "\u{feff}z"] {
        assert_eq!(trim_text(s), s.trim());
        assert_eq!(trim_text(&trim_text(s)), s.trim());
    }
}

#[test]
fn characters_are_classed_like_in_the_standard_library() {
    for n in 0..0x3100u32 {
        if let Some(c) = char::from_u32(n) {
            assert_eq!(is_white_space(c), c.is_whitespace(), "{n:x}");
            assert_eq!(is_control_char(c), c.is_control(), "{n:x}");
        }
    }
}

#[test]
fn splitting_keeps_every_part() {
    let chars: Vec<char> = "a,,bc".chars().collect();
    assert_eq!(split_ranges(&chars, ','), vec![(0, 1), (2, 2), (3, 5)]);
    assert_eq!(split_ranges(&Vec::new(), ','), vec![(0, 0)]);
}

#[test]
fn world_keys_read_back() {
    assert_eq!(parse_world_key("0__0"), Some((0, 0)));
    assert_eq!(parse_world_key("5__18446744073709551615"), Some((5, u64::MAX)));
    assert_eq!(parse_world_key("5__6__7"), None);
    assert_eq!(parse_world_key("5_6"), None);
    assert_eq!(seed_from_key("5__6"), Some(6));
    assert_eq!(seed_from_key("x"), None);
}

#[test]
fn chunk_files_are_named_by_position() {
    assert_eq!(chunk_filename(ChunkPos::new(-1, 2)), "n1_2.bin");
    for pos in [ChunkPos::new(i32::MIN + 1, i32::MAX), ChunkPos::new(-7, 0)] {
        assert_eq!(parse_chunk_filename(&chunk_filename(pos)), Some(pos));
    }
    assert_eq!(chunk_filename(ChunkPos::new(i32::MIN, 0)), "n2147483647_0.bin");
    assert_eq!(parse_chunk_filename("2147483648_0.bin"), None);
    assert_eq!(parse_chunk_filename("1_2_3.bin"), None);
    assert_eq!(parse_chunk_filename(""), None);
}

#[test]
fn sizes_are_rounded_like_floats() {
    assert_eq!(format_storage_bytes(256), format!("{:.1} KB", 0.25));
    for b in [1u64, 99, 100, 101, 1023, 1024, 51_200, 102_399, 102_400] {
        let mut value = b as f64;
        let mut unit = 0;
        let units = ["B", "KB", "MB", "GB", "TB"];
        while value >= 100.0 && unit + 1 < units.len() {
            value /= 1024.0;
            unit += 1;
        }
        assert_eq!(format_storage_bytes(b), format!("{value:.1} {}", units[unit]));
    }
}

#[test]
fn saved_worlds_are_listed_newest_first() {
    let world = |key: &str, t: u64| WorldSummary {
        key: key.into(),
        display_name: key.into(),
        updated_at_ms: t,
        used_bytes: 0,
    };
    let list = vec![world("a", 1), world("b", 9), world("c", 1), world("d", 5)];
    let keys: Vec<String> = sort_newest_first(&list).into_iter().map(|w| w.key).collect();
    assert_eq!(keys, vec!["b", "d", "a", "c"]);
}

#[test]
fn records_of_worlds() {
    let fresh = WorldRecord::fresh("12__34", 99);
    assert_eq!(fresh.seed, "34");
    assert_eq!(fresh.created_at_ms, 12_000);
    assert_eq!(fresh.updated_at_ms, 99);
    assert_eq!(fresh.storage_version, 2);
    assert_eq!(fresh.protocol_version, 10);
    assert_eq!(WorldRecord::fresh("odd", 99).created_at_ms, 99);
    let again = WorldRecord::opened(Some(fresh.clone()), "12__34", 100).unwrap();
    assert_eq!((again.created_at_ms, again.updated_at_ms), (12_000, 100));
    let mut old = fresh.clone();
    old.storage_version = 1;
    assert!(matches!(
        WorldRecord::opened(Some(old), "12__34", 100),
        Err(StorageError::NeedsUpgrade { found: 1, supported: 2 })
    ));
    assert_eq!(WorldRecord::changed(None, "12__34", 7).updated_at_ms, 7);

    let stone = (Position::new(1, 2, 3), MaterialCell::full(STONE));
    let body = FreeObject::dynamic_from_cells(5, &[stone]).unwrap();
    let falling = ObjectInFlight {
        body,
        transform: Transform { position: ZERO },
        velocity: ZERO,
        angular_velocity: ZERO,
        mass: 0,
        collision_proxy: CollisionProxy::SampleCloud,
    };
    let saved = WorldRecord::with_objects(Some(fresh.clone()), "12__34", 8, vec![falling.clone()]);
    assert_eq!(saved.active_free_objects, vec![falling.clone()]);
    assert_eq!((saved.created_at_ms, saved.updated_at_ms), (12_000, 8));
    let kept = WorldRecord::changed(Some(saved), "12__34", 9);
    assert_eq!(kept.active_free_objects, vec![falling]);

    let mut meta = MetaRecord::default();
    meta.note_world(&fresh);
    meta.note_world(&again);
    assert_eq!(meta.worlds.len(), 1);
    assert_eq!(meta.worlds[0].updated_at_ms, 100);
    meta.forget_world("12__34");
    assert!(meta.worlds.is_empty());
}

#[test]
fn storage_is_added_up() {
    assert_eq!(size_snapshot(&vec![10, 20], 5, &vec![35, 100]), (35, 100));
    assert_eq!(size_snapshot(&vec![10], 5, &vec![3]), (15, 0));
    assert!(matches!(error_of_name("NotFoundError", "x".into()), StorageError::NotFound));
    assert!(matches!(error_of_name("QuotaExceededError", "x".into()), StorageError::QuotaExceeded));
    assert!(matches!(error_of_name("Other", "x".into()), StorageError::Io(d) if d == "x"));
    assert_eq!(format_time(2025, 4, 30, 8, 0, 59), "2025-04-30 08:00:59");
}

#[test]
fn pieces_of_several_chunks_do_not_mix() {
    let mut a = ChunkAssembler::new();
    let (p, q) = (ChunkPos::new(0, 0), ChunkPos::new(0, 1));
    assert!(a.ingest(p, 0, 2, b"p".to_vec()).is_none());
    assert!(a.ingest(q, 1, 2, b"Q".to_vec()).is_none());
    assert!(a.ingest(p, 0, 2, b"later".to_vec()).is_none());
    assert_eq!(a.len(), 2);
    assert_eq!(a.ingest(q, 0, 2, b"q".to_vec()), Some(b"qQ".to_vec()));
    assert_eq!(a.ingest(p, 1, 2, b"P".to_vec()), Some(b"laterP".to_vec()));
    assert!(a.ingest(p, 1, 2, b"P".to_vec()).is_none());
    a.cancel(p);
    assert!(a.is_empty());
}

#[test]
fn mesh_jobs_rise_but_never_fall() {
    let (a, b) = (ChunkPos::new(0, 0), ChunkPos::new(1, 0));
    let mut q = MeshJobQueue::new();
    q.enqueue(a, MeshPriority::Low);
    q.enqueue(b, MeshPriority::Medium);
    q.enqueue(a, MeshPriority::Critical);
    q.enqueue(a, MeshPriority::Low);
    assert_eq!(q.len(), 2);
    assert_eq!(q.pop_within_budget(10, 20), Some(a));
    assert_eq!(q.pop_within_budget(20, 20), None);
    assert_eq!(q.pop_highest(), Some(b));
    assert!(MeshPriority::Critical.rank() < MeshPriority::Low.rank());
    let mut stats = MeshRunStats::new();
    stats.record(4, 6, 1);
    stats.record(8, 12, 0);
    assert_eq!(
        (stats.jobs_processed, stats.vertices_uploaded, stats.indices_uploaded),
        (2, 12, 18)
    );
}

#[test]
fn loader_follows_the_player() {
    let mut jobs = MeshJobQueue::new();
    let mut loader = ChunkLoader::new(1);
    let plan = loader.update(ChunkPos::new(0, 0), &mut jobs, &|_| false).unwrap();
    assert_eq!(plan.fresh.len(), 9);
    assert!(plan.unload.is_empty());
    assert_eq!(jobs.len(), 9);
    assert!(loader.update(ChunkPos::new(0, 0), &mut jobs, &|_| false).is_none());
    let plan = loader.update(ChunkPos::new(9, 0), &mut jobs, &|_| true).unwrap();
    assert_eq!(plan.unload.len(), 9);
    loader.invalidate();
    assert!(loader.update(ChunkPos::new(9, 0), &mut jobs, &|_| true).is_some());
    assert_eq!(chunks_around(ChunkPos::new(2, 3), 1).len(), 9);
    assert!(chunks_around(ChunkPos::new(2, 3), 1).contains(&ChunkPos::new(1, 4)));
    assert_eq!(
        chebyshev_distance(ChunkPos::new(1 << 30, 0), ChunkPos::new(-(1 << 29), 0)),
        (1 << 30) + (1 << 29)
    );
    assert_eq!(affected_chunks(Position::new(31, 0, -32)).len(), 4);
    assert_eq!(
        affected_chunks(Position::new(i32::MAX, 0, i32::MIN + 1)),
        vec![ChunkPos::new(134217727, -134217728), ChunkPos::new(134217728, -134217728)]
    );
}

#[test]
fn guests_ask_for_what_is_missing() {
    let mut jobs = MeshJobQueue::new();
    let mut loader = ChunkLoader::new(1);
    loader.mark_requested_square(ChunkPos::new(0, 0), 0);
    let plan = loader.update_remote(ChunkPos::new(0, 0), &mut jobs).unwrap();
    assert_eq!(plan.fresh.len(), 8);
    assert!(!plan.fresh.contains(&ChunkPos::new(0, 0)));
    loader.mark_loaded(ChunkPos::new(0, 0));
    let plan = loader.update_remote(ChunkPos::new(8, 0), &mut jobs).unwrap();
    assert_eq!(plan.unload, vec![ChunkPos::new(0, 0)]);
    loader.set_render_distance(2);
    assert_eq!(loader.render_distance, 2);
}

#[test]
fn requests_have_fresh_numbers() {
    assert_eq!(id_after(u32::MAX), 1);
    let mut p = PendingActions::new();
    let a = p.next_request_id();
    let b = p.next_request_id();
    assert_ne!(a, b);
    let action = PendingAction {
        kind: PendingKind::Break,
        pos: Position::new(0, 1, 2),
        backup: MaterialCell::full(STONE),
    };
    p.insert(a, action);
    assert!(p.resolve(b, false).is_none());
    assert_eq!(p.resolve(a, false), Some(action));
    assert_eq!(p.resolve(a, false), None);
}

#[test]
fn history_keeps_what_is_not_confirmed() {
    let mut h = InputHistory::new(5);
    for t in 1..=4 {
        h.push(t, at(t));
    }
    assert_eq!(h.position_at(3), Some(at(3)));
    assert_eq!(h.acknowledge(2), Some(at(2)));
    assert_eq!(h.len(), 2);
    assert_eq!(h.acknowledge(99), None);
    assert!(h.is_empty());
    h.push(7, at(7));
    h.set_positions(&vec![at(70)]);
    assert_eq!(h.get(0).map(|r| (r.tick, r.position)), Some((7, at(70))));
}

#[test]
fn hotbar_turns_round() {
    let mut h = Hotbar::default();
    h.turn(false);
    assert_eq!(h.selected, 8);
    h.turn(true);
    assert_eq!(h.selected, 0);
    assert_eq!(block_label(BlockID(BlockID::WATER)), "WATER");
    assert_eq!(block_label(BlockID(999)), "???");
    assert_ne!(block_swatch(STONE), block_swatch(DIRT));
}

#[test]
fn chat_lines_end() {
    let mut c = ChatHistory::default();
    c.input_buffer = " hi ".into();
    assert!(matches!(c.end_of_line(false, false), ChatUiAction::NoAction));
    assert!(matches!(c.end_of_line(true, false), ChatUiAction::Submit(t) if t == " hi "));
    assert_eq!(c.input_buffer, "");
    c.input_buffer = "  ".into();
    assert!(matches!(c.end_of_line(true, false), ChatUiAction::Cancel));
    c.input_buffer = "x".into();
    assert!(matches!(c.end_of_line(false, true), ChatUiAction::Cancel));
    assert_eq!(c.input_buffer, "");
    assert_eq!(single_line_text("a\nb\r\nc"), "a b  c");
    assert_eq!(speaker(&ChatKind::User { from_eid: 3, from_name: "Ann".into() }), "Ann: ");
    let mut tiny = ChatHistory::with_cap(0);
    tiny.push_system("a".into(), 0);
    tiny.push_system("b".into(), 0);
    assert!(tiny.recent(9).is_empty());
    assert_eq!(tiny.len(), 0);
    let mut one = ChatHistory::with_cap(1);
    one.push_system("a".into(), 0);
    one.push_user(3, "Ann".into(), "b".into(), 0);
    assert_eq!(one.recent(9)[0].content, "b");
    assert_eq!(one.len(), 1);
}

#[test]
fn keys_steer() {
    let mut s = InputState::default();
    s.on_key_down(KeyCode::KeyW, 0);
    s.on_key_down(KeyCode::KeyA, 0);
    s.on_key_down(KeyCode::ShiftLeft, 0);
    assert_eq!(steering(&s), Steering { forward: 1, right: -1, up: -1 });
    s.on_key_down(KeyCode::KeyS, 0);
    assert_eq!(steering(&s).forward, 0);
    s.on_key_up(KeyCode::KeyW);
    assert_eq!(steering(&s).forward, -1);
    s.on_mouse_move(3, -4);
    s.on_mouse_move(i32::MAX, 0);
    assert_eq!((s.mouse_dx, s.mouse_dy), (i32::MAX as i64 + 3, -4));
    s.clear_held();
    assert_eq!(steering(&s), Steering { forward: 0, right: 0, up: 0 });
    s.on_mouse_down(0);
    s.on_mouse_up(0);
    assert!(!s.break_held && s.break_just_pressed);
    s.on_key_down(KeyCode::KeyD, 0);
    let still = neutral_input(&s);
    assert!(still.break_just_pressed && !still.right);
    s.on_key_up(KeyCode::KeyD);
    s.on_key_down(KeyCode::Space, 1_000);
    s.on_key_up(KeyCode::Space);
    s.on_key_down(KeyCode::Space, 2_000);
    assert!(s.fly_toggle_pending);
    s.fly_toggle_pending = false;
    s.on_key_up(KeyCode::Space);
    s.on_key_down(KeyCode::Space, 3_000);
    assert!(!s.fly_toggle_pending, "a press counts for one pair only");
}

#[test]
fn leaving_the_pointer_lock_opens_the_menu() {
    let mut s = InputState::default();
    s.on_key_down(KeyCode::KeyW, 0);
    s.pointer_lock_changed(true, true);
    assert!(s.pointer_locked && !s.forward && !s.esc_menu);
    s.on_key_down(KeyCode::KeyW, 0);
    s.pointer_lock_changed(true, true);
    assert!(s.forward);
    s.pointer_lock_changed(false, true);
    assert!(!s.pointer_locked && !s.forward && s.esc_menu);
}

#[test]
fn rooms_are_named() {
    assert_eq!(room_id_of_bytes(Some(vec![0, 25, 26, 35, 36, 255])), "az09ad");
    assert_eq!(room_id_of_bytes(None), "voxweb");
    assert_eq!(seed_of_bytes(Some(vec![1, 2, 0, 0, 0, 0, 0, 128])), 0x8000_0000_0000_0201);
    assert_eq!(seed_of_bytes(None), 0);
    assert_ne!((random_seed(), random_seed()), (0, 0));
    assert_eq!(validate_room_id("").unwrap_err(), "Room ID cannot be empty");
    assert_eq!(validate_room_id("abc").unwrap_err(), "Room ID must be 4-12 characters");
    assert_eq!(validate_room_id("ab.cd").unwrap_err(), "Room ID may only contain a-z, 0-9, _, -");
    assert_eq!(
        parse_seed("x").unwrap_err(),
        "Seed must be an integer from 0 to 18446744073709551615"
    );
    assert_eq!(connecting_title(GameMode::Host, "abcd"), "Hosting room abcd…");
    assert_eq!(connecting_title(GameMode::Remote, "abcd"), "Joining room abcd…");
    assert_eq!(connecting_title(GameMode::Local, ""), "Loading…");
    assert_eq!(world_label("now", 42), "now · 42.0 B");
}

#[test]
fn lobby_buttons() {
    let mut l = LobbyState::default();
    assert_eq!(l.resolve_display_name(), "Player");
    l.display_name = "  Ann ".into();
    l.seed_input = "7".into();
    assert!(matches!(
        l.press_single_player(),
        Some(LobbyAction::StartSinglePlayer { seed: Some(7), display_name }) if display_name == "Ann"
    ));
    l.selected_save = Some("5__6".into());
    assert!(matches!(
        l.press_single_player(),
        Some(LobbyAction::StartSinglePlayer { seed: Some(6), .. })
    ));
    l.selected_save = None;
    l.seed_input = "seven".into();
    assert!(l.press_create_room().is_none());
    assert!(l.error_message.is_some());
    l.room_id_input = "x".into();
    assert!(l.press_join_room().is_none());
    assert_eq!(l.error_message.as_deref(), Some("Room ID must be 4-12 characters"));
    l.room_id_input = " room1 ".into();
    assert!(matches!(
        l.press_join_room(),
        Some(LobbyAction::JoinRoom { room_id, .. }) if room_id == "room1"
    ));
    assert!(l.error_message.is_none());
    assert_eq!(l.room_to_open("room1".into()).as_deref(), Some("room1"));
    let drawn = l.room_to_open(String::new()).unwrap();
    assert_eq!(drawn.len(), 6);
    assert!(drawn.chars().all(|c| c.is_ascii_lowercase() || c.is_ascii_digit()));
    assert_eq!(l.room_id_input, drawn);
    assert_eq!(l.last_generated_room.as_deref(), Some(drawn.as_str()));
    assert_eq!(l.settle_room(String::new(), "abcdef".into()).as_deref(), Some("abcdef"));
    assert_eq!(l.room_to_join("?".into()), None);
}

#[test]
fn lobby_lists_saves() {
    let mut l = LobbyState::default();
    assert_eq!(l.storage_line(), "Storage: Unavailable");
    assert!(l.begin_loading_saves());
    assert!(!l.begin_loading_saves());
    assert_eq!(l.saves_header(), "My Saves (Loading...)");
    assert_eq!(l.storage_line(), "Storage: Loading...");
    l.saves_arrived(Ok(StorageOverview {
        worlds: Vec::new(),
        quota: Some(QuotaInfo { quota: 12 * 1024, usage: 42 }),
    }));
    assert_eq!(l.saves_header(), "My Saves (0)");
    assert_eq!(l.storage_line(), "Storage: 42.0 B / 12.0 KB");
    l.selected_save = Some("k".into());
    l.saves_refreshed(Ok(StorageOverview::default()), true);
    assert_eq!(l.selected_save, None);
    l.saves_refreshed(Err("e".into()), false);
    assert_eq!(l.error_message.as_deref(), Some("Failed to refresh saves: e"));
    l.saves_arrived(Err("e".into()));
    assert_eq!(l.error_message.as_deref(), Some("Failed to load saves: e"));
    l.delete_failed("busy");
    assert_eq!(l.error_message.as_deref(), Some("Failed to delete save: busy"));
    l.mark_saves_stale();
    assert!(l.begin_loading_saves());
}

#[test]
fn menu_and_chat_keys() {
    let o = overlay_after_keys(false, false, true, false);
    assert!(o.paused && o.release_pointer && !o.chat_open);
    let o = overlay_after_keys(true, false, true, false);
    assert!(!o.paused && o.lock_pointer);
    let o = overlay_after_keys(false, true, true, false);
    assert!(!o.chat_open && o.clear_line && o.lock_pointer);
    let o = overlay_after_keys(false, false, false, true);
    assert!(o.chat_open && o.release_pointer);
    let o = overlay_after_ui(o, &ChatUiAction::Cancel, PauseAction::NoAction);
    assert!(!o.chat_open && o.lock_pointer);
    assert_eq!(pause_action_of(true, true, true, true), PauseAction::ExitToLobby);
    assert_eq!(pause_action_of(true, false, false, true), PauseAction::SaveNow);
    assert_eq!(pause_action_of(false, false, false, true), PauseAction::Resume);
    assert_eq!(pause_action_of(false, false, false, false), PauseAction::NoAction);
}

#[test]
fn shell_goes_through_its_states() {
    let mut s = Shell::new();
    let first = s.enter_local(1);
    assert_eq!(s.state, AppState::Connecting);
    assert_eq!(s.preload.unwrap().total, 9);
    let steps = s.connecting_steps(None);
    assert_eq!(steps.len(), 1);
    assert_eq!(steps[0].label, "Loading spawn chunks (0/9)");
    assert_eq!(steps[0].status, StepStatus::InProgress);
    s.preload_progress(1, 9, 3, false);
    assert_eq!(s.state, AppState::Connecting);
    s.preload_progress(1, 9, 9, true);
    assert_eq!(s.state, AppState::ingame_default());
    assert!(s.take_lock_request());
    assert!(!s.take_lock_request());
    assert_eq!(s.on_click(false), ClickAction::LockPointer);
    s.end_game_frame(overlay_after_keys(false, false, true, false));
    assert_eq!(s.on_click(true), ClickAction::Nothing);
    assert_eq!(s.on_click(false), ClickAction::Resume);
    let effect = s.apply_room_event(RoomEvent::Disconnected { reason: "gone".into() }, true, 1, 0);
    assert_eq!(effect, RoomEffect::LeaveWorld);
    assert_eq!(s.state, AppState::Disconnected);
    assert_eq!(s.disconnect_reason.as_deref(), Some("gone"));
    let mut lobby = LobbyState::default();
    s.return_to_lobby(&mut lobby);
    assert_eq!(s.state, AppState::Lobby);
    let second = s.enter_room(GameMode::Host, "room1");
    assert!(second > first);
    assert_eq!(s.connecting_steps(Some(&RoomSession::Idle)).len(), 6);
    s.apply_room_event(RoomEvent::PeerRelayed { peer_id: 4 }, true, 1, 0);
    assert_eq!(s.relayed_peers.len(), 1);
    assert_eq!(
        s.apply_room_event(RoomEvent::RemoteLeft { peer_id: 4 }, true, 1, 0),
        RoomEffect::RemovePeer { peer_id: 4 }
    );
    assert!(s.relayed_peers.is_empty());
    s.apply_room_event(RoomEvent::Connected, true, 2, 0);
    assert_eq!(s.preload.unwrap().total, 25);
    s.apply_room_event(RoomEvent::SignalingError("no".into()), true, 1, 0);
    assert_eq!(s.connecting_error.as_deref(), Some("no"));
}

#[test]
fn notes_are_shown_for_a_while() {
    let mut s = Shell::new();
    for i in 0..10u64 {
        s.push_notification(i, format!("n{i}"));
    }
    assert_eq!(s.current_notes(9).len(), 8);
    assert_eq!(s.current_notes(5_000_002).len(), 7);
    assert_eq!(s.current_notes(5_000_008), vec!["n9"]);
    assert!(s.current_notes(9_000_000).is_empty());
}

#[test]
fn chunks_are_counted() {
    let there = [ChunkPos::new(0, 0), ChunkPos::new(1, 1), ChunkPos::new(5, 5)];
    let n = count_chunks(
        ChunkPos::new(0, 0),
        1,
        &|p: ChunkPos| there.contains(&p),
        &|p: ChunkPos| p == ChunkPos::new(1, 1),
    );
    assert_eq!(n, (2, 1));
}

#[test]
fn saving_is_paced() {
    let mut s = SaveState::new();
    s.request_save();
    let start = s.pump_start(GameMode::Remote, 10, true, 0, true);
    assert!(matches!(start, PumpStep::Notify { note: SaveNote::SavedByHost }));
    assert!(matches!(
        s.pump_start(GameMode::Local, 10, true, 0, false),
        PumpStep::Idle
    ));
    s.request_save();
    assert!(matches!(
        s.pump_start(GameMode::Local, 10, false, 0, false),
        PumpStep::Notify { note: SaveNote::Unavailable }
    ));
    s.request_save();
    assert!(matches!(
        s.pump_start(GameMode::Local, 10, true, 0, false),
        PumpStep::TakeBatch { limit: 16, save_now: true }
    ));
    assert!(matches!(s.pump_nothing(0, 0), Some(SaveNote::Complete)));
    s.pump_sent(10);
    assert!(matches!(
        s.pump_start(GameMode::Local, 3_000_009, true, 0, true),
        PumpStep::Idle
    ));
    assert!(matches!(
        s.pump_start(GameMode::Local, 3_000_010, true, 0, true),
        PumpStep::TakeBatch { limit: 4, save_now: false }
    ));
    assert_eq!(SaveNote::WillRetry.words(), "Save will retry soon");
    let space = QuotaInfo { quota: 100, usage: 96 };
    s.quota = Some(space);
    assert_eq!(s.quota_to_check(GameMode::Local, 3_000_009), None);
    assert_eq!(s.quota_to_check(GameMode::Local, 3_000_010), Some(space));
    assert_eq!(s.quota_to_check(GameMode::Remote, 3_000_010), None);
}

#[test]
fn written_chunks_are_accounted_for() {
    let (p, q) = (ChunkPos::new(0, 0), ChunkPos::new(0, 1));
    let mut s = SaveState::new();
    s.attach(&vec![(p, 10)], &vec![p], 15, 100, None);
    assert_eq!(s.current_world_bytes, 15);
    s.round_written(true, &vec![(p, 30), (q, 5)], None, false, 0, 0);
    assert_eq!(s.current_world_bytes, 40);
    s.round_written(true, &vec![(p, 30), (q, 5)], None, false, 0, 0);
    assert_eq!(s.current_world_bytes, 40);
    s.request_save();
    assert!(s.round_written(true, &Vec::new(), None, true, 0, 0));
    s.request_save();
    assert!(!s.round_written(true, &Vec::new(), None, true, 1, 0));
    s.round_failed(true, true);
    s.attach_failed("no room".into());
    assert_eq!(s.storage_error.as_deref(), Some("no room"));
}

#[test]
fn saved_chunks_are_read_once() {
    let (p, q) = (ChunkPos::new(0, 0), ChunkPos::new(1, 0));
    let mut s = SaveState::new();
    s.attach(&vec![(p, 1), (q, 1)], &vec![p], 0, 0, None);
    assert_eq!(s.visible_loads(p, 2), vec![q]);
    assert!(s.visible_loads(p, 2).is_empty());
    assert!(s.load_finished(q, LoadOutcome::Found, false));
    assert!(s.visible_loads(p, 2).is_empty());
    assert!(!s.load_finished(q, LoadOutcome::Missing, false));
    let mut known = HashSet::new();
    known.insert(q.key());
    assert_eq!(SaveState::spawn_loads(p, &known), vec![q]);
    assert_eq!(missing_positions(&vec![p, q], &vec![(p, 3)]), vec![q]);
    assert_eq!(chunks_to_mark(0).len(), 0);
    assert_eq!(chunks_to_mark(3).len(), 3);
    let mut jobs = MeshJobQueue::new();
    enqueue_chunk_and_neighbors(&mut jobs, p, MeshPriority::High);
    assert_eq!(jobs.len(), 5);
    assert_eq!(jobs.pop_highest(), Some(p));
}

#[test]
fn poses_are_bracketed() {
    let mut i = PlayerInterp::new();
    i.ingest_tick(3, 200, at(2), 0, 0);
    i.ingest_tick(3, 100, at(1), 0, 0);
    i.ingest_tick(3, 300, at(3), 0, 0);
    assert!(matches!(i.around(3, 50), Some(Bracket::At { sample }) if sample.position == at(1)));
    match i.around(3, 250) {
        Some(Bracket::Between { a, b }) => {
            assert_eq!((a.server_time_ms, b.server_time_ms), (200, 300));
        }
        other => panic!("{other:?}"),
    }
    match i.around(3, 301) {
        Some(Bracket::After { prev, latest }) => {
            assert_eq!((prev.server_time_ms, latest.server_time_ms), (200, 300));
        }
        other => panic!("{other:?}"),
    }
    assert_eq!(i.ids(), vec![3]);
    i.remove(3);
    assert!(i.around(3, 250).is_none());
}

#[test]
fn browser_keys_are_mapped() {
    assert_eq!(map_key("KeyW"), Some(KeyCode::KeyW));
    assert_eq!(map_key("Digit9"), Some(KeyCode::Digit9));
    assert_eq!(map_key("KeyZ"), None);
    assert_eq!(map_web_key_to_egui("Enter"), Some(UiKey::Enter));
    assert_eq!(map_web_key_to_egui(" "), Some(UiKey::Space));
    assert_eq!(map_web_key_to_egui("a"), None);
    let plain = KeyModifiers { alt: false, ctrl: false, shift: false, meta: false };
    let ctrl = KeyModifiers { ctrl: true, ..plain };
    assert_eq!(forward_keydown("a", plain).typed.as_deref(), Some("a"));
    assert_eq!(forward_keydown("é", plain).typed.as_deref(), Some("é"));
    assert_eq!(forward_keydown("a", ctrl).typed, None);
    assert_eq!(forward_keydown("F5", plain).typed, None);
    let tab = forward_keydown("Tab", plain);
    assert!(tab.prevent_default && tab.key == Some(UiKey::Tab));
    assert_eq!(forward_keydown(" ", plain).typed.as_deref(), Some(" "));
    assert!(route_key(true, true).prevent_default && !route_key(true, true).to_ui);
    assert!(route_key(false, true).to_ui);
    assert_eq!(route_mouse(true, 2), MouseRoute::Game { prevent_default: true });
    assert_eq!(route_mouse(false, 1), MouseRoute::Ui { button: PointerButton::Middle });
    assert_eq!(route_mouse(false, 7), MouseRoute::Nowhere);
}

#[test]
fn status_lines() {
    assert_eq!(movement_line(CameraMode::Walk, true), "MODE Walk  [ground]");
    assert_eq!(movement_line(CameraMode::Fly, false), "MODE Fly  ");
    assert_eq!(chunks_line(3, 4), "CHUNKS 3  MESH_Q 4");
    assert_eq!(depth_line(true), "DEPTH_PRE ON");
    let quota = QuotaInfo { quota: 100, usage: 7 };
    assert_eq!(available_for_world(quota, 60), 40);
    assert_eq!(available_for_world(quota, 200), 0);
    assert_eq!(save_line(42, 12 * 1024), "SAVE 42.0 B / 12.0 KB");
    assert_eq!(save_error_line("full"), "SAVE ERR full");
    assert_eq!(drawing_line(1, 2, 3, 4), "VISIBLE 1  CULLED 2  DRAW_V/I 3/4");
    assert_eq!(network_line(GameMode::Host, "12 ms", "room1"), "NET HOST  RTT 12 ms  ROOM room1");
    assert_eq!(network_line(GameMode::Local, "--", ""), "NET LOCAL  RTT --");
    assert_eq!(relay_line(0), None);
    assert_eq!(relay_line(2).as_deref(), Some("RELAY 2 peer(s) (relaying)"));
    assert!(hint_line(false).starts_with("Click"));
}

#[test]
fn rays_walk_through_cells() {
    assert_eq!(next_axis(true, true, false), Axis::X);
    assert_eq!(next_axis(false, false, true), Axis::Y);
    assert_eq!(next_axis(true, false, false), Axis::Z);
    let mut ray = GridRay::new(Position::new(0, 64, 0), Position::new(1, -1, 1));
    ray.advance(true, true, true);
    assert_eq!(ray.current, Position::new(1, 64, 0));
    assert_eq!(
        ray.look(STONE),
        RayCell::Hard { face: Face::NegX, normal: Position::new(-1, 0, 0) }
    );
    assert_eq!(ray.look(BlockID(BlockID::WATER)), RayCell::Open);
    assert_eq!(ray.look(BlockID(BlockID::SAND)), RayCell::Loose);
    ray.advance(false, true, true);
    assert_eq!(
        ray.look(STONE),
        RayCell::Hard { face: Face::PosY, normal: Position::new(0, 1, 0) }
    );
    assert_eq!(face_from_normal(Position::new(0, 0, -1)), Face::NegZ);
}

#[test]
fn refused_changes_are_put_back() {
    let mut g = guest();
    let mut input = InputState::default();
    input.on_mouse_down(0);
    let backup = MaterialCell::full(STONE);
    let attempt = g.try_break(&input, 1_000_000, 250_000, hit(), backup, ZERO).unwrap();
    assert_eq!(attempt.write, Some((Position::new(3, 70, 3), BlockID(BlockID::AIR))));
    let id = match attempt.message {
        ClientMessage::Break { request_id, .. } => request_id,
        other => panic!("{other:?}"),
    };
    assert!(g.try_break(&input, 1_100_000, 250_000, hit(), backup, ZERO).is_none());
    let undo = g.apply_server_message(
        ServerMessage::ActionAck {
            request_id: id,
            accepted: false,
            reason: AckReason::OutOfRange,
        },
        0,
    );
    assert!(matches!(
        &undo[0],
        GameAction::WriteCell { pos, cell } if *pos == Position::new(3, 70, 3) && *cell == backup
    ));
    assert!(g
        .apply_server_message(
            ServerMessage::ActionAck { request_id: id, accepted: false, reason: AckReason::Granted },
            0,
        )
        .is_empty());
}

#[test]
fn blocks_are_placed_beside() {
    let mut g = GameSession::new(GameMode::Local, "Me".into(), 4);
    let mut input = InputState::default();
    input.on_mouse_down(2);
    assert_eq!(place_target(hit().unwrap()), Position::new(3, 71, 3));
    let empty = MaterialCell::empty();
    assert!(g.try_place(&input, hit(), DIRT, true, empty, ZERO).is_none());
    assert!(g.try_place(&input, None, DIRT, false, empty, ZERO).is_none());
    assert!(g.try_place(&input, hit(), DIRT, false, MaterialCell::full(STONE), ZERO).is_none());
    let attempt = g.try_place(&input, hit(), DIRT, false, empty, ZERO).unwrap();
    assert_eq!(attempt.write, None);
    assert!(matches!(
        attempt.message,
        ClientMessage::Place { pos, block, request_id: 1, .. }
            if pos == Position::new(3, 71, 3) && block == DIRT
    ));
}

#[test]
fn the_host_is_asked_for_its_clock() {
    let mut g = guest();
    assert!(g.ping(4_999_999).is_none());
    assert!(matches!(g.ping(5_000_000), Some(ClientMessage::Ping { client_time_ms: 5000 })));
    assert!(g.ping(5_000_001).is_none());
    let got = g.apply_server_message(
        ServerMessage::Pong { client_time_ms: 5000, server_time_ms: 77 },
        5_030_000,
    );
    assert!(matches!(
        got[0],
        GameAction::PongClock { round_trip_us: 30_000, server_time_ms: 77 }
    ));
    for i in 0..40u64 {
        g.ping(10_000_000 + i * 5_000_000);
    }
    assert_eq!(g.pending_pings.len(), 16);
}

#[test]
fn players_come_and_go() {
    let mut g = guest();
    assert_eq!(g.effective_render_distance(), 3);
    let names: Vec<(u32, String, bool, bool)> = g
        .player_list()
        .into_iter()
        .map(|e| (e.entity_id, e.display_name, e.is_host, e.is_me))
        .collect();
    assert_eq!(
        names,
        vec![
            (1, "Host".to_string(), true, false),
            (5, "Me".to_string(), false, true),
            (9, "Zoe".to_string(), false, false),
        ]
    );
    g.apply_server_message(
        ServerMessage::PeerJoined { entity_id: 12, display_name: "Bob".into() },
        1,
    );
    g.apply_server_message(ServerMessage::PeerLeft { entity_id: 9 }, 2);
    g.apply_server_message(ServerMessage::Chat { from: 12, content: "yo".into() }, 3);
    let lines: Vec<&str> = g.chat.recent(9).iter().map(|m| m.content.as_str()).collect();
    assert_eq!(lines, vec!["Bob joined the room", "Zoe left the room", "yo"]);
    assert_eq!(g.player_name(12), "Bob");
    assert_eq!(role_suffix(false, false), "");
    g.apply_server_message(ServerMessage::HostSettings { render_distance: 2 }, 0);
    assert_eq!(g.effective_render_distance(), 2);
}

#[test]
fn reports_reconcile_the_own_position() {
    let mut g = guest();
    assert_eq!(g.logic_step(at(10)), 1);
    assert_eq!(g.logic_step(at(20)), 2);
    assert!(matches!(
        g.input_report(2, at(20), 1, 2),
        Some(ClientMessage::PlayerInput { tick: 2, yaw: 1, pitch: 2, .. })
    ));
    assert!(g.input_report(0, at(20), 1, 2).is_none());
    let snapshot = |entity_id, last_input_tick| PlayerSnapshot {
        entity_id,
        last_input_tick,
        position: at(11),
        yaw: 0,
        pitch: 0,
    };
    let acts = g.apply_server_message(
        ServerMessage::PlayerTick {
            tick: 4,
            players: vec![snapshot(5, 1), snapshot(9, 0), snapshot(5, 2)],
            server_time_ms: 50,
        },
        0,
    );
    assert_eq!(acts.len(), 3);
    assert!(matches!(acts[0], GameAction::TickClock { server_time_ms: 50 }));
    assert!(matches!(
        acts[1],
        GameAction::Reconcile { server_position, input_tick: 1 } if server_position == at(11)
    ));
    assert!(matches!(
        acts[2],
        GameAction::Reconcile { server_position, input_tick: 2 } if server_position == at(11)
    ));
    assert_eq!(g.input_history.len(), 2);
    assert_eq!(g.input_history.acknowledge(1), Some(at(10)));
    g.input_history.set_positions(&vec![at(21)]);
    assert_eq!(g.input_history.acknowledge(2), Some(at(21)));
    assert_eq!(g.input_history.len(), 0);
    assert!(g.interp.around(9, 50).is_some());
}

#[test]
fn fields_arrive_in_pieces() {
    let mut g = guest();
    let piece = |i: u16, b: u8| ServerMessage::FieldSnapshot {
        pos: ChunkPos::new(0, 0),
        frag_index: i,
        frag_total: 2,
        payload: vec![b],
    };
    assert!(g.apply_server_message(piece(1, 8), 0).is_empty());
    let acts = g.apply_server_message(piece(0, 7), 0);
    assert!(matches!(&acts[0], GameAction::LoadField { bytes, .. } if *bytes == vec![7, 8]));
    g.field_loaded(ChunkPos::new(0, 0));
    assert!(g.mesh_jobs.len() > 0);
    let delta = ServerMessage::FieldDelta {
        pos: Position::new(0, 1, 0),
        cell: MaterialCell::full(DIRT),
    };
    assert!(matches!(
        g.apply_server_message(delta, 0)[0],
        GameAction::WriteBlock { block, .. } if block == DIRT
    ));
    assert!(g.field_request(ChunkPos::new(0, 0), Vec::new()).is_none());
    assert!(matches!(
        g.field_request(ChunkPos::new(0, 0), vec![ChunkPos::new(1, 0)]),
        Some(ClientMessage::FieldRequest { render_distance: 3, .. })
    ));
}

#[test]
fn fallen_cells_are_paired() {
    let empty = MaterialCell::empty();
    let sand = MaterialCell::full(BlockID(BlockID::SAND));
    let from = Position::new(0, 9, 0);
    let to = Position::new(0, 4, 0);
    let moves = cell_moves(&vec![(from, empty), (to, sand)]).unwrap();
    assert_eq!(moves.len(), 1);
    assert_eq!((moves[0].from, moves[0].to), (from, to));
    assert!(cell_moves(&vec![(from, empty)]).is_none());
}
