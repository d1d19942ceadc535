use std::collections::{HashMap, HashSet};

use voxweb::block::BlockID;
use voxweb::chunk::{ChunkPos, Position};
use voxweb::host::{host_command, Admission, HostAction, HostCommand, HostState};
use voxweb::ice::{
    bump_ipv6_priority, candidate_of_parts, read_candidate, servers_or_default, CandidateParts,
};
use voxweb::peer::{NetError, PeerEvent, PeerLink, PeerState, BUFFERED_HIGH_WATER};
use voxweb::protocol::{
    AckReason, ClientMessage, OutboundMessage, PlayerSnapshot, Recipient, RoomEvent,
    ServerMessage, Vec3Bits, PROTOCOL_VERSION,
};
use voxweb::relay::{plan_route, RelayRateLimiter};
use voxweb::remote::{OpenChannels, RemoteAction, RemoteState};
use voxweb::room::{NegotiationProgress, RoomSession, StepStatus};
use voxweb::signaling::{
    answer_text, event_of_fields, ice_text, leave_text, offer_text, parse_event, read_fields,
    register_text, room_url, signaling_address, IceServerConfig, Role, SignalingEvent,
};
use voxweb::transport::{channel_for_client_message, channel_for_server_message, ChannelKind};

const ZERO: Vec3Bits = Vec3Bits { x: 0, y: 0, z: 0 };

fn ms(v: u64) -> u64 {
    v * 1000
}

fn outbound(recipient: Recipient) -> OutboundMessage {
    OutboundMessage {
        recipient,
        message: ServerMessage::ActionAck {
            request_id: 0,
            accepted: true,
            reason: AckReason::Granted,
        },
    }
}

fn mapping(pairs: &[(u32, u32)]) -> HashMap<u32, u32> {
    pairs.iter().copied().collect()
}

#[test]
fn route_all_sends_to_all_peers_and_local() {
    let map = mapping(&[(101, 2), (102, 3)]);
    let plan = plan_route(&outbound(Recipient::All), &map, Some(1));
    assert!(plan.send_to_local);
    let mut got = plan.peers_to_send.clone();
    got.sort();
    assert_eq!(got, vec![101, 102]);
}

#[test]
fn route_all_without_host_self_skips_local() {
    let map = mapping(&[(101, 2)]);
    let plan = plan_route(&outbound(Recipient::All), &map, None);
    assert!(!plan.send_to_local);
    assert_eq!(plan.peers_to_send, vec![101]);
}

#[test]
fn route_except_skips_target_entity_on_peers_and_local() {
    let map = mapping(&[(101, 2), (102, 3)]);
    let plan = plan_route(&outbound(Recipient::Except(2)), &map, Some(1));
    assert_eq!(plan.peers_to_send, vec![102]);
    assert!(plan.send_to_local);

    let plan2 = plan_route(&outbound(Recipient::Except(1)), &map, Some(1));
    let mut got = plan2.peers_to_send.clone();
    got.sort();
    assert_eq!(got, vec![101, 102]);
    assert!(!plan2.send_to_local);
}

#[test]
fn route_one_to_host_self_only_goes_local() {
    let map = mapping(&[(101, 2), (102, 3)]);
    let plan = plan_route(&outbound(Recipient::One(1)), &map, Some(1));
    assert!(plan.send_to_local);
    assert!(plan.peers_to_send.is_empty());
}

#[test]
fn route_one_to_remote_peer_goes_single_peer() {
    let map = mapping(&[(101, 2), (102, 3)]);
    let plan = plan_route(&outbound(Recipient::One(3)), &map, Some(1));
    assert!(!plan.send_to_local);
    assert_eq!(plan.peers_to_send, vec![102]);
}

#[test]
fn route_one_to_unknown_entity_routes_nothing() {
    let map = mapping(&[(101, 2)]);
    let plan = plan_route(&outbound(Recipient::One(999)), &map, Some(1));
    assert!(!plan.send_to_local);
    assert!(plan.peers_to_send.is_empty());
}

#[test]
fn relay_rate_limiter_keeps_headroom_under_worker_cap() {
    let mut limiter = RelayRateLimiter::new(200, ms(0));

    for _ in 0..160 {
        assert!(limiter.has_token(ms(0)));
        limiter.consume_token(ms(0));
    }
    assert!(!limiter.has_token(ms(0)));

    assert!(!limiter.has_token(ms(6)));
    assert!(limiter.has_token(ms(7)));
}

#[test]
fn relay_rate_limiter_small_rate_still_progresses() {
    let mut limiter = RelayRateLimiter::new(1, ms(0));

    assert!(limiter.has_token(ms(0)));
    limiter.consume_token(ms(0));
    assert!(!limiter.has_token(ms(999)));
    assert!(limiter.has_token(ms(1000)));
}

#[test]
fn progress_transitions() {
    let mut s = RoomSession::AwaitRegistered;
    s.enter_negotiating();
    assert!(matches!(s, RoomSession::Negotiating(_)));
    s.mark_offer_exchanged();
    if let RoomSession::Negotiating(p) = &s {
        assert!(p.offer_exchanged);
        assert!(!p.answer_exchanged);
    }
    s.mark_answer_exchanged();
    s.mark_dc_open();
    if let RoomSession::Negotiating(p) = &s {
        assert!(p.answer_exchanged && p.data_channel_opened);
    }
}

#[test]
fn loading_steps_idle_all_pending() {
    let s = RoomSession::Idle;
    let steps = s.loading_steps();
    assert_eq!(steps.len(), 5);
    assert!(steps.iter().all(|s| s.status == StepStatus::Pending));
}

#[test]
fn loading_steps_signaling_connect() {
    let s = RoomSession::SignalingConnect;
    let steps = s.loading_steps();
    assert_eq!(steps[0].status, StepStatus::InProgress);
    assert_eq!(steps[1].status, StepStatus::Pending);
}

#[test]
fn loading_steps_await_registered() {
    let s = RoomSession::AwaitRegistered;
    let steps = s.loading_steps();
    assert_eq!(steps[0].status, StepStatus::Done);
    assert_eq!(steps[1].status, StepStatus::InProgress);
}

#[test]
fn loading_steps_negotiating_offer() {
    let s = RoomSession::Negotiating(NegotiationProgress::default());
    let steps = s.loading_steps();
    assert_eq!(steps[0].status, StepStatus::Done);
    assert_eq!(steps[1].status, StepStatus::Done);
    assert_eq!(steps[2].status, StepStatus::InProgress);
    assert_eq!(steps[3].status, StepStatus::Pending);
    assert_eq!(steps[4].status, StepStatus::Pending);
}

#[test]
fn loading_steps_negotiating_answer() {
    let mut s = RoomSession::Negotiating(NegotiationProgress::default());
    s.mark_offer_exchanged();
    let steps = s.loading_steps();
    assert_eq!(steps[2].status, StepStatus::Done);
    assert_eq!(steps[3].status, StepStatus::InProgress);
    assert_eq!(steps[4].status, StepStatus::Pending);
}

#[test]
fn loading_steps_negotiating_dc() {
    let mut s = RoomSession::Negotiating(NegotiationProgress::default());
    s.mark_offer_exchanged();
    s.mark_answer_exchanged();
    let steps = s.loading_steps();
    assert_eq!(steps[2].status, StepStatus::Done);
    assert_eq!(steps[3].status, StepStatus::Done);
    assert_eq!(steps[4].status, StepStatus::InProgress);
}

#[test]
fn loading_steps_all_done() {
    let mut s = RoomSession::Negotiating(NegotiationProgress::default());
    s.mark_offer_exchanged();
    s.mark_answer_exchanged();
    s.mark_dc_open();
    let steps = s.loading_steps();
    assert!(steps.iter().all(|s| s.status == StepStatus::Done));
}

#[test]
fn loading_steps_connected() {
    let s = RoomSession::Connected;
    let steps = s.loading_steps();
    assert_eq!(steps.len(), 5);
    assert!(steps.iter().all(|s| s.status == StepStatus::Done));
}

#[test]
fn parse_registered() {
    let txt = r#"{"kind":"registered","peer_id":3,"existing_peers":[1,2],"ice_servers":[{"urls":["stun:stun.l.google.com:19302"]}]}"#;
    let ev = parse_event(txt).unwrap();
    match ev {
        SignalingEvent::Registered { peer_id, existing_peers, ice_servers } => {
            assert_eq!(peer_id, 3);
            assert_eq!(existing_peers, vec![1, 2]);
            assert_eq!(ice_servers.len(), 1);
        }
        other => panic!("expected Registered, got {other:?}"),
    }
}

#[test]
fn parse_offer() {
    let txt = r#"{"kind":"offer","from":1,"sdp":"v=0..."}"#;
    let ev = parse_event(txt).unwrap();
    assert!(matches!(ev, SignalingEvent::Offer { from: 1, .. }));
}

#[test]
fn parse_ice() {
    let txt = r#"{"kind":"ice","from":2,"candidate":"candidate:..."}"#;
    let ev = parse_event(txt).unwrap();
    assert!(matches!(ev, SignalingEvent::Ice { from: 2, .. }));
}

#[test]
fn parse_room_closed() {
    let txt = r#"{"kind":"room_closed","reason":"host_left"}"#;
    let ev = parse_event(txt).unwrap();
    assert!(matches!(ev, SignalingEvent::RoomClosed { .. }));
}

#[test]
fn parse_unknown_kind_errors() {
    let txt = r#"{"kind":"oops"}"#;
    assert!(parse_event(txt).is_err());
}

#[test]
fn client_channel_selection() {
    assert_eq!(
        channel_for_client_message(&ClientMessage::Hello { display_name: "x".into(), version: 1 }),
        ChannelKind::Reliable
    );
    assert_eq!(
        channel_for_client_message(&ClientMessage::PlayerInput {
            tick: 0,
            position: ZERO,
            yaw: 0,
            pitch: 0,
        }),
        ChannelKind::Unreliable
    );
    assert_eq!(
        channel_for_client_message(&ClientMessage::Ping { client_time_ms: 0 }),
        ChannelKind::Unreliable
    );
    assert_eq!(
        channel_for_client_message(&ClientMessage::Break {
            pos: Position::new(0, 0, 0),
            request_id: 0,
            input_tick: 0,
            player_position: ZERO,
        }),
        ChannelKind::Reliable
    );
    assert_eq!(
        channel_for_client_message(&ClientMessage::FieldRequest {
            center: ChunkPos::new(0, 0),
            render_distance: 2,
            chunks: vec![ChunkPos::new(1, -2)],
        }),
        ChannelKind::Reliable
    );
}

#[test]
fn server_channel_selection() {
    assert_eq!(
        channel_for_server_message(&ServerMessage::Welcome {
            entity_id: 1,
            server_tick: 0,
            world_seed: 0,
            host_entity_id: 1,
            host_render_distance: 6,
            players: Vec::new(),
        }),
        ChannelKind::Reliable
    );
    assert_eq!(
        channel_for_server_message(&ServerMessage::HostSettings { render_distance: 6 }),
        ChannelKind::Reliable
    );
    assert_eq!(
        channel_for_server_message(&ServerMessage::PlayerTick {
            tick: 0,
            players: vec![PlayerSnapshot {
                entity_id: 1,
                last_input_tick: 0,
                position: ZERO,
                yaw: 0,
                pitch: 0,
            }],
            server_time_ms: 0,
        }),
        ChannelKind::Unreliable
    );
    assert_eq!(
        channel_for_server_message(&ServerMessage::Pong { client_time_ms: 0, server_time_ms: 0 }),
        ChannelKind::Unreliable
    );
    assert_eq!(
        channel_for_server_message(&ServerMessage::ActionAck {
            request_id: 0,
            accepted: true,
            reason: AckReason::Granted,
        }),
        ChannelKind::Reliable
    );
}

#[test]
fn ipv4_host_priority_reduced() {
    let input = "candidate:2999745851 1 udp 2122260223 192.168.1.5 60169 typ host generation 0";
    let expected_prio = 2122260223u32 - 0x4000_0000;
    let expected = format!(
        "candidate:2999745851 1 udp {expected_prio} 192.168.1.5 60169 typ host generation 0"
    );
    assert_eq!(bump_ipv6_priority(input), expected);
}

#[test]
fn ipv6_host_priority_unchanged() {
    let input = "candidate:840527380 1 udp 2122197247 2001:db8::1 60170 typ host generation 0";
    assert_eq!(bump_ipv6_priority(input), input);
}

#[test]
fn ipv4_srflx_priority_reduced() {
    let input = "candidate:842163049 1 udp 1685987071 203.0.113.1 60169 typ srflx raddr 192.168.1.5 rport 60169";
    let expected_prio = 1685987071u32 - 0x4000_0000;
    let expected = format!(
        "candidate:842163049 1 udp {expected_prio} 203.0.113.1 60169 typ srflx raddr 192.168.1.5 rport 60169"
    );
    assert_eq!(bump_ipv6_priority(input), expected);
}

#[test]
fn ipv4_low_priority_saturates_to_zero() {
    let input = "candidate:1 1 udp 100 198.51.100.1 60169 typ relay raddr 0.0.0.0 rport 0";
    let expected = "candidate:1 1 udp 0 198.51.100.1 60169 typ relay raddr 0.0.0.0 rport 0";
    assert_eq!(bump_ipv6_priority(input), expected);
}

#[test]
fn malformed_candidate_returned_unchanged() {
    let input = "not-a-candidate";
    assert_eq!(bump_ipv6_priority(input), input);
}

#[test]
fn mdns_hostname_unchanged() {
    let input = "candidate:1 1 udp 2122260223 abc-def.local 60169 typ host generation 0";
    assert_eq!(bump_ipv6_priority(input), input);
}

#[test]
fn ipv6_srflx_unchanged() {
    let input =
        "candidate:2 1 udp 1685987071 2001:db8::abcd 60170 typ srflx raddr ::1 rport 60170";
    assert_eq!(bump_ipv6_priority(input), input);
}

#[test]
fn candidates_are_read_from_json() {
    let init = read_candidate(
        r#"{"candidate":"candidate:1 1 udp 1 10.0.0.1 9 typ host","sdpMid":"0","sdpMLineIndex":65539}"#,
    )
    .unwrap();
    assert_eq!(init.candidate, "candidate:1 1 udp 1 10.0.0.1 9 typ host");
    assert_eq!(init.sdp_mid.as_deref(), Some("0"));
    assert_eq!(init.sdp_m_line_index, Some(3));
    let bare = read_candidate(r#"{"candidate":"x","sdpMid":null}"#).unwrap();
    assert_eq!(bare.sdp_mid, None);
    assert_eq!(bare.sdp_m_line_index, None);
    assert_eq!(
        read_candidate(r#"{"sdpMid":"0"}"#).unwrap_err(),
        "ice candidate missing .candidate"
    );
    assert!(read_candidate("{").unwrap_err().starts_with("ice candidate json: "));
    let none = CandidateParts { candidate: None, sdp_mid: None, sdp_m_line_index: None };
    assert_eq!(candidate_of_parts(none).unwrap_err(), "ice candidate missing .candidate");
}

#[test]
fn signaling_texts_are_json() {
    assert_eq!(
        register_text(Role::Host, "A \"b\""),
        r#"{"display_name":"A \"b\"","kind":"register","role":"host"}"#
    );
    assert_eq!(offer_text(3, "v=0\r\n"), r#"{"kind":"offer","sdp":"v=0\r\n","to":3}"#);
    assert_eq!(answer_text(4, "x"), r#"{"kind":"answer","sdp":"x","to":4}"#);
    assert_eq!(ice_text(5, "c"), r#"{"candidate":"c","kind":"ice","to":5}"#);
    assert_eq!(leave_text(), r#"{"kind":"leave"}"#);
    assert_eq!(Role::Join.as_str(), "join");
}

#[test]
fn rooms_have_addresses() {
    assert_eq!(room_url("wss://s.example/", "abc123"), "wss://s.example/room/abc123");
    assert_eq!(signaling_address(Some("q".into()), Some("m".into())), Some("q".into()));
    assert_eq!(signaling_address(Some("".into()), Some("m".into())), Some("m".into()));
    assert_eq!(signaling_address(None, Some("".into())), None);
}

#[test]
fn signals_keep_their_parts() {
    match parse_event(r#"{"kind":"peer_left","peer_id":9}"#).unwrap() {
        SignalingEvent::PeerLeft { peer_id } => assert_eq!(peer_id, 9),
        other => panic!("{other:?}"),
    }
    let fields = read_fields(r#"{"kind":"offer","from":1,"sdp":"s"}"#).unwrap();
    match event_of_fields(fields).unwrap() {
        SignalingEvent::Offer { from, sdp } => {
            assert_eq!(from, 1);
            assert_eq!(sdp, "s");
        }
        other => panic!("{other:?}"),
    }
    assert!(parse_event("not json").is_err());
    assert!(parse_event(r#"{"from":1}"#).is_err());
}

#[test]
fn connection_states_follow_channels() {
    let mut link = PeerLink::new();
    link.negotiation_started();
    assert_eq!(link.state, PeerState::Negotiating);
    assert_eq!(link.may_send(ChannelKind::Reliable), Err(NetError::DataChannelClosed));
    assert_eq!(link.channel_opened(ChannelKind::Reliable), None);
    assert_eq!(link.channel_opened(ChannelKind::Unreliable), Some(PeerState::Connected));
    assert!(link.is_connected());
    assert!(link.may_send(ChannelKind::Reliable).is_ok());
    link.sent(ChannelKind::Reliable, BUFFERED_HIGH_WATER);
    assert_eq!(link.may_send(ChannelKind::Reliable), Err(NetError::DataChannelClosed));
    assert!(link.may_send(ChannelKind::Unreliable).is_ok());
    link.drained();
    assert!(link.may_send(ChannelKind::Reliable).is_ok());
    assert_eq!(link.ice_state_changed("failed"), Some(PeerState::Failed));
    link.closed();
    assert_eq!(link.state, PeerState::Disconnected);
    link.channel_closed(ChannelKind::Unreliable);
    assert!(!link.is_connected());
}

#[test]
fn host_lets_players_in_by_version() {
    let hello = |version| ClientMessage::Hello { display_name: "Ann".into(), version };
    assert!(matches!(
        host_command(None, hello(PROTOCOL_VERSION)),
        HostCommand::AddPlayer { display_name } if display_name == "Ann"
    ));
    assert!(matches!(host_command(None, hello(9)), HostCommand::TurnAway { version: 9 }));
    let chat = ClientMessage::Chat { content: "hi".into() };
    assert!(matches!(host_command(None, chat.clone()), HostCommand::Ignore));
    assert!(matches!(
        host_command(Some(5), chat),
        HostCommand::Handle { entity_id: 5, msg: ClientMessage::Chat { .. } }
    ));
}

#[test]
fn host_opens_connections_and_falls_back_to_the_relay() {
    let mut host = HostState::new();
    assert!(host.on_signal(SignalingEvent::Open, 0).is_empty());
    let opened = host.on_signal(
        SignalingEvent::Registered { peer_id: 1, existing_peers: vec![], ice_servers: vec![] },
        0,
    );
    assert!(opened.iter().any(|a| matches!(a, HostAction::Tell { event: RoomEvent::Connected })));
    let joined = host.on_signal(SignalingEvent::PeerJoined { peer_id: 2 }, 0);
    assert!(joined.iter().any(|a| matches!(a, HostAction::OpenPeer { peer_id: 2 })));
    host.on_peer_opened(2, 0);
    assert!(host.on_tick(15_000_000).is_empty());
    let late = host.on_tick(15_000_001);
    assert!(late.iter().any(|a| matches!(a, HostAction::RequestRelay { peer_id: 2 })));
    assert!(host.on_tick(16_000_000).is_empty());
    host.on_signal(SignalingEvent::RelayActive { peer_id: 2, max_rate: 1 }, 0);
    host.host_register_peer(2, 7);
    assert_eq!(host.host_peer_entity(2), Some(7));
    host.host_set_self_entity(1);
    let plan = host.route(&outbound(Recipient::All));
    assert_eq!(plan.peers_to_send, vec![2]);
    assert!(plan.send_to_local);
    let clear = HashSet::new();
    match host.clear_to_send(&vec![2], ChannelKind::Reliable, &clear, 0) {
        Admission::Send { direct, relayed } => {
            assert!(direct.is_empty());
            assert_eq!(relayed, vec![2]);
        }
        Admission::Hold => panic!("the relay is free"),
    }
    assert!(matches!(
        host.clear_to_send(&vec![2], ChannelKind::Reliable, &clear, 0),
        Admission::Hold
    ));
    assert_eq!(host.host_unregister_peer(2), Some(7));
    let gone = host.on_signal(SignalingEvent::PeerLeft { peer_id: 2 }, 0);
    assert!(gone
        .iter()
        .any(|a| matches!(a, HostAction::Tell { event: RoomEvent::RemoteLeft { peer_id: 2 } })));
}

#[test]
fn guest_queues_until_connected() {
    let shut = OpenChannels { reliable: false, unreliable: false };
    let open = OpenChannels { reliable: true, unreliable: false };
    let mut guest = RemoteState::new();
    guest.on_signal(SignalingEvent::Open);
    let asked = guest.on_signal(SignalingEvent::Registered {
        peer_id: 2,
        existing_peers: vec![1],
        ice_servers: vec![],
    });
    assert!(matches!(asked[0], RemoteAction::OpenHost { peer_id: 1 }));
    guest.on_host_opened();
    assert!(guest.send_client_message(ClientMessage::Chat { content: "a".into() }, shut).is_none());
    assert!(guest.send_client_message(ClientMessage::Ping { client_time_ms: 1 }, shut).is_none());
    let done = guest.on_peer_event(PeerEvent::StateChanged(PeerState::Connected), open);
    assert_eq!(done.len(), 2);
    assert!(matches!(done[0], RemoteAction::Tell { event: RoomEvent::Connected }));
    assert!(matches!(
        &done[1],
        RemoteAction::SendDirect { channel: ChannelKind::Reliable, msg: ClientMessage::Chat { .. } }
    ));
    let relayed = guest.on_signal(SignalingEvent::RelayActive { peer_id: 1, max_rate: 9 });
    assert!(matches!(relayed[0], RemoteAction::CloseHost));
    assert!(matches!(
        &relayed[3],
        RemoteAction::SendRelayed { peer_id: 1, msg: ClientMessage::Ping { client_time_ms: 1 } }
    ));
    assert!(matches!(
        guest.send_client_message(ClientMessage::Chat { content: "b".into() }, shut),
        Some(RemoteAction::SendRelayed { peer_id: 1, .. })
    ));
    assert!(guest
        .on_signal(SignalingEvent::RelayBinary { sender_peer_id: 9, payload: vec![1] })
        .is_empty());
    assert!(matches!(
        guest.on_signal(SignalingEvent::RelayBinary { sender_peer_id: 1, payload: vec![1] })[0],
        RemoteAction::Deliver { .. }
    ));
    guest.receive(ServerMessage::PeerLeft { entity_id: 3 });
    assert_eq!(guest.try_recv_server_message(), Some(ServerMessage::PeerLeft { entity_id: 3 }));
    assert_eq!(guest.try_recv_server_message(), None);
    let left = guest.on_signal(SignalingEvent::PeerLeft { peer_id: 1 });
    assert!(matches!(
        &left[0],
        RemoteAction::Tell { event: RoomEvent::Disconnected { reason } } if reason == "host_left"
    ));
}

#[test]
fn guest_gives_up_when_the_host_cannot_be_reached() {
    let mut guest = RemoteState::new();
    let told = guest.on_host_failed("no route".into());
    assert!(matches!(
        told,
        RemoteAction::Tell { event: RoomEvent::SignalingError(why) } if why == "no route"
    ));
    assert_eq!(
        *guest.session(),
        RoomSession::Disconnected { reason: "create_answerer failed".into() }
    );
}

#[test]
fn limiter_never_exceeds_its_rate() {
    let mut limiter = RelayRateLimiter::new(100, ms(0));
    let mut sent = 0;
    for t in 0..2000 {
        while limiter.has_token(ms(t)) {
            limiter.consume_token(ms(t));
            sent += 1;
        }
    }
    assert!(sent <= 80 + 160);
    assert!(sent >= 80 + 159);
}

#[test]
fn blocks_travel_as_numbers() {
    let msg = ClientMessage::Place {
        pos: Position::new(1, 2, 3),
        block: BlockID(BlockID::STONE),
        request_id: 7,
        input_tick: 8,
        player_position: ZERO,
    };
    assert_eq!(msg.clone(), msg);
}

#[test]
fn texts_are_quoted() {
    assert_eq!(
        answer_text(4, "\u{8}\t\n\u{c}\r\"\\/\u{0}\u{1f}\u{7f} é世"),
        "{\"kind\":\"answer\",\"sdp\":\"\\b\\t\\n\\f\\r\\\"\\\\/\\u0000\\u001f\u{7f} é世\",\"to\":4}"
    );
    assert_eq!(answer_text(4, ""), "{\"kind\":\"answer\",\"sdp\":\"\",\"to\":4}");
}

#[test]
fn connections_have_a_server_to_ask() {
    let public = servers_or_default(Vec::new());
    assert_eq!(public.len(), 1);
    assert_eq!(public[0].urls, vec!["stun:stun.l.google.com:19302".to_string()]);
    assert!(public[0].username.is_none() && public[0].credential.is_none());
    let named = servers_or_default(vec![
        IceServerConfig {
            urls: vec!["turn:a".into(), "turn:b".into()],
            username: Some("u".into()),
            credential: Some("c".into()),
        },
        IceServerConfig { urls: Vec::new(), username: None, credential: None },
    ]);
    assert_eq!(named.len(), 2);
    assert_eq!(named[0].urls, vec!["turn:a".to_string(), "turn:b".to_string()]);
    assert_eq!(named[0].username.as_deref(), Some("u"));
    assert_eq!(named[0].credential.as_deref(), Some("c"));
    assert!(named[1].urls.is_empty());
}
