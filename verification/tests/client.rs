use voxweb::app_state::{effective_render_distance, AppState, GameMode};
use voxweb::block::{BlockID, MaterialCell};
use voxweb::chat::{ChatHistory, ChatKind};
use voxweb::chunk::{ChunkPos, Position};
use voxweb::chunk_assembler::ChunkAssembler;
use voxweb::chunk_loader::{
    affected_chunks, chebyshev_distance, chunk_pos_of, priority_for_distance,
};
use voxweb::hotbar::Hotbar;
use voxweb::input::{InputState, KeyCode};
use voxweb::interp::{Bracket, PlayerInterp};
use voxweb::lobby::{generate_room_id, parse_seed, validate_room_id};
use voxweb::menus::{empty_click_should_resume, PauseAction};
use voxweb::mesh_jobs::{MeshJobQueue, MeshPriority};
use voxweb::prediction::{InputHistory, PendingAction, PendingActions, PendingKind};
use voxweb::protocol::Vec3Bits;
use voxweb::storage::{
    chunk_filename, format_storage_bytes, make_world_key, parse_chunk_filename, parse_world_key,
};

const ZERO: Vec3Bits = Vec3Bits { x: 0, y: 0, z: 0 };

fn ms(v: u64) -> u64 {
    v * 1000
}

fn bits(x: f32, y: f32, z: f32) -> Vec3Bits {
    Vec3Bits { x: x.to_bits(), y: y.to_bits(), z: z.to_bits() }
}

#[test]
fn appstate_is_in_game_matches_both_subflag_combos() {
    assert!(AppState::ingame_default().is_in_game());
    assert!(AppState::InGame { paused: true, chat_open: false }.is_in_game());
    assert!(AppState::InGame { paused: false, chat_open: true }.is_in_game());
    assert!(AppState::InGame { paused: true, chat_open: true }.is_in_game());
    assert!(!AppState::Lobby.is_in_game());
    assert!(!AppState::Connecting.is_in_game());
    assert!(!AppState::Disconnected.is_in_game());
}

#[test]
fn appstate_ingame_default_has_no_overlays() {
    match AppState::ingame_default() {
        AppState::InGame { paused, chat_open } => {
            assert!(!paused);
            assert!(!chat_open);
        }
        _ => panic!("a game without overlays is in the game"),
    }
}

#[test]
fn appstate_default_is_lobby() {
    assert_eq!(AppState::default(), AppState::Lobby);
}

#[test]
fn appstate_subflag_inequality() {
    assert_ne!(
        AppState::InGame { paused: true, chat_open: false },
        AppState::InGame { paused: false, chat_open: true }
    );
    assert_ne!(
        AppState::ingame_default(),
        AppState::InGame { paused: true, chat_open: false }
    );
}

#[test]
fn host_decides_how_far_guests_see() {
    assert_eq!(effective_render_distance(GameMode::Remote, 9, 6), 6);
    assert_eq!(effective_render_distance(GameMode::Host, 9, 6), 9);
}

#[test]
fn push_user_and_system_are_distinguishable() {
    let mut h = ChatHistory::default();
    h.push_user(1, "Alice".into(), "hi".into(), ms(100));
    h.push_system("Bob 加入了房间".into(), ms(200));
    assert_eq!(h.len(), 2);
    let msgs = h.recent(10);
    assert!(matches!(msgs[0].kind, ChatKind::User { from_eid: 1, .. }));
    assert!(matches!(msgs[1].kind, ChatKind::System));
    assert_eq!(msgs[0].content, "hi");
    assert_eq!(msgs[1].content, "Bob 加入了房间");
}

#[test]
fn cap_evicts_oldest_in_fifo_order() {
    let mut h = ChatHistory::with_cap(3);
    h.push_system("a".into(), ms(0));
    h.push_system("b".into(), ms(1));
    h.push_system("c".into(), ms(2));
    h.push_system("d".into(), ms(3));
    let msgs = h.recent(10);
    assert_eq!(msgs.len(), 3);
    assert_eq!(msgs[0].content, "b");
    assert_eq!(msgs[1].content, "c");
    assert_eq!(msgs[2].content, "d");
}

#[test]
fn recent_returns_oldest_to_newest_subset() {
    let mut h = ChatHistory::default();
    for i in 0..10 {
        h.push_system(format!("m{i}"), ms(i));
    }
    let last3: Vec<_> = h.recent(3).iter().map(|m| m.content.as_str()).collect();
    assert_eq!(last3, vec!["m7", "m8", "m9"]);
}

#[test]
fn recent_within_filters_by_received_at_ms() {
    let mut h = ChatHistory::default();
    h.push_system("old".into(), ms(0));
    h.push_system("recent".into(), ms(4000));
    h.push_system("now".into(), ms(5500));

    let kept = h.recent_within(ms(5500), ms(5000), 10);
    let texts: Vec<_> = kept.iter().map(|m| m.content.as_str()).collect();
    assert_eq!(texts, vec!["recent", "now"]);
}

#[test]
fn recent_within_caps_at_n() {
    let mut h = ChatHistory::default();
    for i in 0..10 {
        h.push_system(format!("m{i}"), ms(1000 + i));
    }
    let kept = h.recent_within(ms(2000), ms(5000), 5);
    let texts: Vec<_> = kept.iter().map(|m| m.content.as_str()).collect();
    assert_eq!(texts, vec!["m5", "m6", "m7", "m8", "m9"]);
}

#[test]
fn ingest_returns_none_until_complete() {
    let mut a = ChunkAssembler::new();
    let pos = ChunkPos::new(0, 0);

    assert!(a.ingest(pos, 0, 3, b"AAAA".to_vec()).is_none());
    assert!(a.ingest(pos, 1, 3, b"BBBB".to_vec()).is_none());
    let full = a.ingest(pos, 2, 3, b"CCCC".to_vec()).expect("should complete");
    assert_eq!(full, b"AAAABBBBCCCC");
    assert!(a.is_empty());
}

#[test]
fn out_of_order_fragments_reassemble() {
    let mut a = ChunkAssembler::new();
    let pos = ChunkPos::new(0, 1);
    assert!(a.ingest(pos, 2, 3, b"C".to_vec()).is_none());
    assert!(a.ingest(pos, 0, 3, b"A".to_vec()).is_none());
    let full = a
        .ingest(pos, 1, 3, b"B".to_vec())
        .expect("final fragment should complete assembly");
    assert_eq!(&full[..], b"ABC");
}

#[test]
fn duplicate_fragment_is_idempotent() {
    let mut a = ChunkAssembler::new();
    let pos = ChunkPos::new(1, 0);
    a.ingest(pos, 0, 2, b"X".to_vec());
    a.ingest(pos, 0, 2, b"X".to_vec());
    assert!(a.ingest(pos, 1, 2, b"Y".to_vec()).is_some());
}

#[test]
fn frag_total_mismatch_resets_entry() {
    let mut a = ChunkAssembler::new();
    let pos = ChunkPos::new(0, 0);
    a.ingest(pos, 0, 3, b"A".to_vec());
    let r = a.ingest(pos, 0, 2, b"B".to_vec());
    assert!(r.is_none());
    let full = a.ingest(pos, 1, 2, b"C".to_vec());
    assert_eq!(full, Some(b"BC".to_vec()));
}

#[test]
fn out_of_range_fragment_is_dropped() {
    let mut a = ChunkAssembler::new();
    let pos = ChunkPos::new(0, 0);
    a.ingest(pos, 0, 2, b"X".to_vec());
    assert!(a.ingest(pos, 999, 2, b"Y".to_vec()).is_none());
}

#[test]
fn zero_frag_total_does_not_create_empty_slot_vec() {
    let mut a = ChunkAssembler::new();
    let pos = ChunkPos::new(0, 0);
    let full = a.ingest(pos, 0, 0, b"X".to_vec());
    assert_eq!(full, Some(b"X".to_vec()));
    assert!(a.is_empty());
}

#[test]
fn chunk_pos_of_negative_coords() {
    let at = |x: f32, z: f32| chunk_pos_of(x.floor() as i32, z.floor() as i32);
    assert_eq!(at(-1.0, -1.0), ChunkPos::new(-1, -1));
    assert_eq!(at(0.0, 0.0), ChunkPos::new(0, 0));
    assert_eq!(at(16.0, 0.0), ChunkPos::new(1, 0));
    assert_eq!(at(15.9, 0.0), ChunkPos::new(0, 0));
}

#[test]
fn chebyshev_basics() {
    assert_eq!(chebyshev_distance(ChunkPos::new(0, 0), ChunkPos::new(0, 0)), 0);
    assert_eq!(chebyshev_distance(ChunkPos::new(3, 4), ChunkPos::new(0, 0)), 4);
    assert_eq!(chebyshev_distance(ChunkPos::new(-2, 5), ChunkPos::new(1, 1)), 4);
}

#[test]
fn priority_classification() {
    let c = ChunkPos::new(0, 0);
    assert_eq!(priority_for_distance(ChunkPos::new(0, 0), c), MeshPriority::Critical);
    assert_eq!(priority_for_distance(ChunkPos::new(1, 0), c), MeshPriority::High);
    assert_eq!(priority_for_distance(ChunkPos::new(0, -1), c), MeshPriority::High);
    assert_eq!(priority_for_distance(ChunkPos::new(2, 2), c), MeshPriority::Medium);
    assert_eq!(priority_for_distance(ChunkPos::new(5, 3), c), MeshPriority::Medium);
}

#[test]
fn affected_chunks_interior_returns_one() {
    let pos = Position::new(5, 64, 7);
    let v = affected_chunks(pos);
    assert_eq!(v, vec![ChunkPos::new(0, 0)]);
}

#[test]
fn affected_chunks_x_boundary_returns_two() {
    let v = affected_chunks(Position::new(0, 64, 5));
    assert_eq!(v.len(), 2);
    assert!(v.contains(&ChunkPos::new(0, 0)));
    assert!(v.contains(&ChunkPos::new(-1, 0)));

    let v = affected_chunks(Position::new(15, 64, 5));
    assert_eq!(v.len(), 2);
    assert!(v.contains(&ChunkPos::new(0, 0)));
    assert!(v.contains(&ChunkPos::new(1, 0)));
}

#[test]
fn affected_chunks_corner_returns_four() {
    let v = affected_chunks(Position::new(0, 64, 0));
    assert_eq!(v.len(), 4);
    assert!(v.contains(&ChunkPos::new(0, 0)));
    assert!(v.contains(&ChunkPos::new(-1, 0)));
    assert!(v.contains(&ChunkPos::new(0, -1)));
    assert!(v.contains(&ChunkPos::new(-1, -1)));
}

#[test]
fn affected_chunks_handles_negative_coords() {
    let v = affected_chunks(Position::new(-1, 64, 5));
    assert_eq!(v.len(), 2);
    assert!(v.contains(&ChunkPos::new(-1, 0)));
    assert!(v.contains(&ChunkPos::new(0, 0)));
}

#[test]
fn default_selects_first() {
    let h = Hotbar::default();
    assert_eq!(h.current(), BlockID(BlockID::STONE));
    assert_eq!(h.current_label(), "STONE");
}

#[test]
fn select_changes_current() {
    let mut h = Hotbar::default();
    h.select(2);
    assert_eq!(h.current(), BlockID(BlockID::GRASS));
    h.select(6);
    assert_eq!(h.current(), BlockID(BlockID::GLASS));
    h.select(8);
    assert_eq!(h.current(), BlockID(BlockID::STONE_BRICKS));
}

#[test]
fn select_out_of_range_ignored() {
    let mut h = Hotbar { selected: 3, ..Hotbar::default() };
    h.select(99);
    assert_eq!(h.selected, 3);
}

#[test]
fn priority_pop_order() {
    let mut q = MeshJobQueue::new();
    q.enqueue(ChunkPos::new(0, 0), MeshPriority::Low);
    q.enqueue(ChunkPos::new(1, 0), MeshPriority::Medium);
    q.enqueue(ChunkPos::new(2, 0), MeshPriority::Critical);
    q.enqueue(ChunkPos::new(3, 0), MeshPriority::High);

    assert_eq!(q.pop_highest(), Some(ChunkPos::new(2, 0)));
    assert_eq!(q.pop_highest(), Some(ChunkPos::new(3, 0)));
    assert_eq!(q.pop_highest(), Some(ChunkPos::new(1, 0)));
    assert_eq!(q.pop_highest(), Some(ChunkPos::new(0, 0)));
    assert_eq!(q.pop_highest(), None);
}

#[test]
fn enqueue_dedupe() {
    let mut q = MeshJobQueue::new();
    q.enqueue(ChunkPos::new(0, 0), MeshPriority::Medium);
    q.enqueue(ChunkPos::new(0, 0), MeshPriority::Critical);
    assert_eq!(q.len(), 1);
    assert_eq!(q.pop_highest(), Some(ChunkPos::new(0, 0)));
}

#[test]
fn cancel_removes_from_queues_and_pending() {
    let mut q = MeshJobQueue::new();
    q.enqueue(ChunkPos::new(0, 0), MeshPriority::Medium);
    q.enqueue(ChunkPos::new(1, 0), MeshPriority::High);
    q.cancel(ChunkPos::new(0, 0));
    assert_eq!(q.len(), 1);
    q.enqueue(ChunkPos::new(0, 0), MeshPriority::Low);
    assert_eq!(q.len(), 2);
}

#[test]
fn is_empty_initial_and_after_drain() {
    let mut q = MeshJobQueue::new();
    assert!(q.is_empty());
    q.enqueue(ChunkPos::new(0, 0), MeshPriority::Medium);
    assert!(!q.is_empty());
    q.pop_highest();
    assert!(q.is_empty());
}

#[test]
fn space_double_tap_within_window_triggers_fly_toggle() {
    let mut s = InputState::default();
    s.on_key_down(KeyCode::Space, ms(100));
    assert!(!s.fly_toggle_pending);
    s.on_key_up(KeyCode::Space);
    s.on_key_down(KeyCode::Space, ms(200));
    assert!(s.fly_toggle_pending);
}

#[test]
fn space_two_taps_outside_window_no_toggle() {
    let mut s = InputState::default();
    s.on_key_down(KeyCode::Space, ms(0));
    s.on_key_up(KeyCode::Space);
    s.on_key_down(KeyCode::Space, ms(500));
    assert!(!s.fly_toggle_pending);
}

#[test]
fn reset_delta_clears_edges() {
    let mut s = InputState::default();
    s.on_key_down(KeyCode::Space, ms(0));
    s.on_mouse_down(0);
    s.on_mouse_move(5, 5);
    s.hotbar_request = Some(3);
    s.reset_delta();
    assert!(!s.jump_just_pressed);
    assert!(!s.break_just_pressed);
    assert_eq!(s.mouse_dx, 0);
    assert_eq!(s.hotbar_request, None);
    assert!(s.jump_held);
    assert!(s.break_held);
}

#[test]
fn mouse_button_mapping_right_is_place() {
    let mut s = InputState::default();
    s.on_mouse_down(2);
    assert!(s.place_just_pressed);
    assert!(s.place_held);
    assert!(!s.break_held);
}

#[test]
fn mouse_button_middle_is_ignored() {
    let mut s = InputState::default();
    s.on_mouse_down(1);
    assert!(!s.break_held && !s.place_held);
}

#[test]
fn digit_keys_request_hotbar() {
    let mut s = InputState::default();
    s.on_key_down(KeyCode::Digit1, ms(0));
    assert_eq!(s.hotbar_request, Some(0));
    s.on_key_down(KeyCode::Digit9, ms(0));
    assert_eq!(s.hotbar_request, Some(8));
}

#[test]
fn interp_returns_none_for_unknown_entity() {
    let interp = PlayerInterp::new();
    assert!(interp.around(999, 0).is_none());
}

#[test]
fn interp_evicts_old_samples_past_capacity() {
    let mut interp = PlayerInterp::new();
    for i in 0..25u64 {
        interp.ingest_tick(1, 1000 + i, bits(i as f32, 64.0, 0.0), 0, 0);
    }
    match interp.around(1, 1000) {
        Some(Bracket::At { sample }) => assert!(f32::from_bits(sample.position.x) >= 5.0),
        other => panic!("should fall back to the earliest report kept, got {other:?}"),
    }
}

#[test]
fn request_id_monotonic() {
    let mut p = PendingActions::new();
    assert_eq!(p.next_request_id(), 1);
    assert_eq!(p.next_request_id(), 2);
    assert_eq!(p.next_request_id(), 3);
}

#[test]
fn insert_and_resolve_accepted_drops_entry() {
    let mut p = PendingActions::new();
    let id = p.next_request_id();
    p.insert(
        id,
        PendingAction {
            kind: PendingKind::Break,
            pos: Position::new(1, 64, 1),
            backup: MaterialCell::from_block_id(BlockID(BlockID::STONE)),
        },
    );
    assert_eq!(p.len(), 1);
    let rolled = p.resolve(id, true);
    assert!(rolled.is_none());
    assert!(p.is_empty());
}

#[test]
fn insert_and_resolve_rejected_returns_backup() {
    let mut p = PendingActions::new();
    let id = p.next_request_id();
    let action = PendingAction {
        kind: PendingKind::Place(BlockID(BlockID::DIRT)),
        pos: Position::new(2, 64, 2),
        backup: MaterialCell::empty(),
    };
    p.insert(id, action);
    let rolled = p.resolve(id, false).expect("a refusal returns what to put back");
    assert_eq!(rolled.pos, Position::new(2, 64, 2));
    assert_eq!(rolled.backup, MaterialCell::empty());
    assert_eq!(rolled.kind, PendingKind::Place(BlockID(BlockID::DIRT)));
    assert!(p.is_empty());
}

#[test]
fn resolve_unknown_id_is_noop() {
    let mut p = PendingActions::new();
    assert!(p.resolve(999, true).is_none());
    assert!(p.resolve(999, false).is_none());
}

#[test]
fn input_history_caps_at_capacity() {
    let mut h = InputHistory::new(3);
    h.push(1, ZERO);
    h.push(2, ZERO);
    h.push(3, ZERO);
    h.push(4, ZERO);
    assert_eq!(h.len(), 3);
    assert_eq!(h.get(0).unwrap().tick, 2);
}

#[test]
fn input_history_drop_until_clears_old() {
    let mut h = InputHistory::new(10);
    h.push(1, ZERO);
    h.push(2, ZERO);
    h.push(3, ZERO);
    h.drop_until(2);
    assert_eq!(h.len(), 1);
    assert_eq!(h.get(0).unwrap().tick, 3);
}

#[test]
fn chunk_filename_roundtrip() {
    for pos in [ChunkPos::new(0, 0), ChunkPos::new(-1, 2), ChunkPos::new(15, -23)] {
        assert_eq!(parse_chunk_filename(&chunk_filename(pos)), Some(pos));
    }
}

#[test]
fn invalid_chunk_filename_rejected() {
    assert_eq!(parse_chunk_filename("1.bin"), None);
    assert_eq!(parse_chunk_filename("x_1.bin"), None);
    assert_eq!(parse_chunk_filename("1_2.txt"), None);
}

#[test]
fn world_key_format() {
    assert_eq!(make_world_key(1000, 7), "1000__7");
    assert_eq!(make_world_key(1746000000, 1234567890), "1746000000__1234567890");
}

#[test]
fn parse_world_key_roundtrip() {
    let key = make_world_key(1746000000, 1234567890);
    let (ts, seed) = parse_world_key(&key).unwrap();
    assert_eq!(ts, 1746000000);
    assert_eq!(seed, 1234567890);
}

#[test]
fn parse_world_key_invalid() {
    assert_eq!(parse_world_key("invalid"), None);
    assert_eq!(parse_world_key("abc__def"), None);
}

#[test]
fn format_storage_bytes_keeps_one_decimal() {
    assert_eq!(format_storage_bytes(0), "0.0 B");
    assert_eq!(format_storage_bytes(42), "42.0 B");
    assert_eq!(format_storage_bytes(100), "0.1 KB");
    assert_eq!(format_storage_bytes(12 * 1024), "12.0 KB");
    assert_eq!(format_storage_bytes(100 * 1024), "0.1 MB");
    assert_eq!(format_storage_bytes(12 * 1024 * 1024), "12.0 MB");
}

#[test]
fn parse_seed_empty_is_none() {
    assert_eq!(parse_seed(""), Ok(None));
    assert_eq!(parse_seed("   "), Ok(None));
}

#[test]
fn parse_seed_valid_u64() {
    assert_eq!(parse_seed("42"), Ok(Some(42)));
    assert_eq!(parse_seed("18446744073709551615"), Ok(Some(u64::MAX)));
}

#[test]
fn parse_seed_invalid_is_err() {
    assert!(parse_seed("not_a_number").is_err());
    assert!(parse_seed("-1").is_err());
}

#[test]
fn room_id_valid() {
    assert!(validate_room_id("abc123").is_ok());
    assert!(validate_room_id("a-b_c").is_ok());
}

#[test]
fn room_id_too_short() {
    assert!(validate_room_id("ab").is_err());
}

#[test]
fn room_id_too_long() {
    assert!(validate_room_id("abcdefghijklm").is_err());
}

#[test]
fn room_id_bad_chars() {
    assert!(validate_room_id("ABC123").is_err());
    assert!(validate_room_id("a b c d").is_err());
}

#[test]
fn generated_room_id_valid_format() {
    let id = generate_room_id();
    assert!(validate_room_id(&id).is_ok(), "got {id}");
    assert_eq!(id.len(), 6);
}

#[test]
fn pause_action_partial_eq() {
    assert_eq!(PauseAction::NoAction, PauseAction::NoAction);
    assert_ne!(PauseAction::Resume, PauseAction::ExitToLobby);
    assert_ne!(PauseAction::NoAction, PauseAction::Resume);
}

#[test]
fn empty_click_resume_predicate_only_accepts_primary_blank_clicks() {
    assert!(empty_click_should_resume(true, false));
    assert!(!empty_click_should_resume(false, false));
    assert!(!empty_click_should_resume(true, true));
}
