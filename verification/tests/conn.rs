use flywheelmc_players::conn::codec::{
    encode_frame, encode_var_u32, read_var_u32, scan_frame, CompressionMode, FrameScan, VarIntRead,
};
use flywheelmc_players::conn::handshake::{handle_intention, HandshakeOutcome, IntendedStage};
use flywheelmc_players::conn::login::{
    login_step, ConnStateLogin, LoginAction, LoginEvent, LoginKick, LoginSettings,
};
use flywheelmc_players::conn::packet::{
    decoder_policy, writer_apply_announcement, writer_observe_frame, ConfigPacketKind,
    CurrentStage, DecoderOutcome, DecoderPolicy, NextStage, Packet, PlayPacketKind, SetStage,
};
use flywheelmc_players::conn::play::{ConnStatePlay, PlayRoute};
use flywheelmc_players::conn::status::{ConnStateStatus, StatusPacketKind, StatusReply};
use flywheelmc_players::conn::{
    keepalive_receive, keepalive_tick, kick_payload, ConnKeepalive, Connection, KeepaliveReply,
    KeepaliveTick, KickColour, KickDisconnect, RealStage,
};
use flywheelmc_players::player::comms::{comms_sends, CommsSend, TextCommsAction};

#[test]
fn varint_encoding_round_trips() {
    for &value in &[0u32, 1, 127, 128, 300, 16383, 16384, 2097151, 0xFFFF_FFFF] {
        let mut bytes = Vec::new();
        encode_var_u32(value, &mut bytes);
        bytes.push(0xEE);
        match read_var_u32(&bytes) {
            VarIntRead::Value { value: decoded, consumed } => {
                assert_eq!(decoded, value);
                assert_eq!(consumed, bytes.len() - 1);
            }
            _ => panic!("a canonical encoding must decode"),
        }
    }
    assert_eq!(
        {
            let mut bytes = Vec::new();
            encode_var_u32(300, &mut bytes);
            bytes
        },
        vec![0xAC, 0x02]
    );
    assert!(matches!(read_var_u32(&vec![0x80]), VarIntRead::Partial));
    assert!(matches!(
        read_var_u32(&vec![0x80, 0x80, 0x80, 0x80, 0x80, 0x01]),
        VarIntRead::Malformed
    ));
}

#[test]
fn frames_scan_and_consume() {
    let body = vec![1u8, 2, 3];
    let framed = encode_frame(&CompressionMode::Plain, &body);
    assert_eq!(framed, vec![3, 1, 2, 3]);
    match scan_frame(&framed) {
        FrameScan::Frame { header, len } => {
            assert_eq!(header, 1);
            assert_eq!(len, 3);
        }
        _ => panic!("a whole frame is buffered"),
    }
    assert!(matches!(scan_frame(&vec![5, 1]), FrameScan::Partial));

    let compressed = encode_frame(&CompressionMode::ZLib { threshold: 100 }, &body);
    assert_eq!(compressed, vec![4, 0, 1, 2, 3]);
}

#[test]
fn connection_reads_plain_packets() {
    let mut conn = Connection::new(String::from("127.0.0.1:25565"));
    conn.ingest_plain(&vec![2, 0xAB, 0xCD, 3]);
    match conn.read_packet() {
        flywheelmc_players::conn::PacketReadOutcome::Packet { data } => {
            assert_eq!(data, vec![0xAB, 0xCD]);
        }
        _ => panic!("a whole plain frame must decode"),
    }
    // Only one byte of the next frame arrived: retry next tick.
    assert!(matches!(
        conn.read_packet(),
        flywheelmc_players::conn::PacketReadOutcome::Pending
    ));
}

#[test]
fn connection_reads_compressed_headers() {
    let mut conn = Connection::new(String::from("127.0.0.1:1"));
    conn.set_compression(CompressionMode::ZLib { threshold: 64 });
    // Zero marker: the body is plain.
    conn.ingest_plain(&vec![4, 0, 9, 9, 9]);
    match conn.read_packet() {
        flywheelmc_players::conn::PacketReadOutcome::Packet { data } => {
            assert_eq!(data, vec![9, 9, 9]);
        }
        _ => panic!("a zero marker precedes a plain body"),
    }
    // A non-zero marker declares a deflated body.
    conn.ingest_plain(&vec![3, 5, 1, 2]);
    match conn.read_packet() {
        flywheelmc_players::conn::PacketReadOutcome::NeedsInflate { expected_len, data } => {
            assert_eq!(expected_len, 5);
            assert_eq!(data, vec![1, 2]);
        }
        _ => panic!("a non-zero marker declares a deflated body"),
    }
}

#[test]
fn send_packet_frames_and_queues_in_order() {
    let mut conn = Connection::new(String::from("peer"));
    conn.send_packet_noset(&vec![7, 8]);
    conn.set_compression(CompressionMode::ZLib { threshold: 100 });
    conn.send_packet_noset(&vec![9]);
    let frames = conn.drain_outbound();
    assert_eq!(frames.len(), 2);
    assert_eq!(frames[0].bytes, vec![2, 7, 8]);
    assert_eq!(frames[1].bytes, vec![2, 0, 9]);
    assert!(conn.drain_outbound().is_empty());
}

#[test]
fn stage_transitions_move_forward() {
    let mut conn = Connection::new(String::from("peer"));
    assert!(matches!(conn.real_stage(), RealStage::Handshake));
    assert!(matches!(
        handle_intention(&mut conn, &IntendedStage::Status),
        HandshakeOutcome::ToStatus
    ));
    assert!(matches!(conn.real_stage(), RealStage::Status));

    let mut login_conn = Connection::new(String::from("peer"));
    assert!(matches!(
        handle_intention(&mut login_conn, &IntendedStage::Transfer),
        HandshakeOutcome::ToLogin
    ));
    assert!(matches!(login_conn.real_stage(), RealStage::Login));
    login_conn.send_packet_config(&vec![1]);
    assert!(matches!(login_conn.real_stage(), RealStage::Config));
    login_conn.send_packet_play(&vec![1]);
    assert!(matches!(login_conn.real_stage(), RealStage::Play));
}

#[test]
fn kick_chooses_the_stage_payload() {
    let mut conn = Connection::new(String::from("peer"));
    assert!(matches!(conn.kick(), KickDisconnect::NoPayload));
    assert!(conn.is_closing());

    let mut late = Connection::new(String::from("peer"));
    handle_intention(&mut late, &IntendedStage::Login);
    assert!(matches!(late.kick(), KickDisconnect::LoginJson));
    late.send_packet_config(&vec![1]);
    assert!(matches!(late.kick(), KickDisconnect::ConfigPacket));
    late.send_packet_play(&vec![1]);
    assert!(matches!(late.kick(), KickDisconnect::PlayPacket));
}

#[test]
fn packet_indices_strictly_increase() {
    let mut conn = Connection::new(String::from("peer"));
    let first = conn.next_packet_index();
    let second = conn.next_packet_index();
    let third = conn.next_packet_index();
    assert!(first < second && second < third);
    assert_eq!(first, 1);
}

#[test]
fn status_cycle_answers_once_then_closes() {
    let mut state = ConnStateStatus::new();
    let (reply, close) = state.step(&StatusPacketKind::StatusRequest);
    assert!(matches!(reply, StatusReply::StatusResponse));
    assert!(!close);
    let (reply, close) = state.step(&StatusPacketKind::PingRequest { timestamp: 42 });
    assert!(matches!(reply, StatusReply::Pong { timestamp: 42 }));
    assert!(close);
}

#[test]
fn repeated_status_request_closes_silently() {
    let mut state = ConnStateStatus::new();
    let _ = state.step(&StatusPacketKind::StatusRequest);
    let (reply, close) = state.step(&StatusPacketKind::StatusRequest);
    assert!(matches!(reply, StatusReply::Nothing));
    assert!(close);
}

#[test]
fn keepalive_round_trip_and_timeout() {
    let sending = ConnKeepalive::Sending { sending_at: 100 };
    let (idle_state, idle) = keepalive_tick(&sending, 99, 7);
    assert!(matches!(idle, KeepaliveTick::Idle));
    assert!(matches!(idle_state, ConnKeepalive::Sending { sending_at: 100 }));

    let (waiting, tick) = keepalive_tick(&sending, 100, 7);
    assert!(matches!(tick, KeepaliveTick::Send { id: 7 }));
    assert!(matches!(
        waiting,
        ConnKeepalive::Waiting { expected_id: 7, expected_by: 5100 }
    ));

    // The matching echo schedules the next probe 2.5 seconds out.
    let (next, reply) = keepalive_receive(&waiting, 7, 200);
    assert!(matches!(reply, KeepaliveReply::Accept));
    assert!(matches!(next, ConnKeepalive::Sending { sending_at: 2700 }));

    // A wrong id, or an echo nobody asked for, is fatal.
    let (_, reply) = keepalive_receive(&waiting, 8, 200);
    assert!(matches!(reply, KeepaliveReply::KickUnordered));
    let (_, reply) = keepalive_receive(&sending, 7, 200);
    assert!(matches!(reply, KeepaliveReply::KickUnordered));

    // No echo by the deadline: timed out.
    let (_, tick) = keepalive_tick(&waiting, 5100, 9);
    assert!(matches!(tick, KeepaliveTick::KickTimedOut));
}

#[test]
fn play_routing_flips_stages_and_forwards() {
    let mut state = ConnStatePlay { stage: NextStage::Play };
    let route = state.step(&Packet::Play(PlayPacketKind::ConfigurationAcknowledged));
    assert!(matches!(route, PlayRoute::SwitchedToConfig));
    assert!(matches!(state.stage, NextStage::Config));

    let route = state.step(&Packet::Config(ConfigPacketKind::Other));
    assert!(matches!(route, PlayRoute::Forward));
    assert!(matches!(state.stage, NextStage::Config));

    let route = state.step(&Packet::Config(ConfigPacketKind::FinishConfiguration));
    assert!(matches!(route, PlayRoute::SwitchedToPlay));
    assert!(matches!(state.stage, NextStage::Play));

    let route = state.step(&Packet::Play(PlayPacketKind::KeepAlive { id: 3 }));
    assert!(matches!(route, PlayRoute::Forward));
}

#[test]
fn writer_stage_discipline() {
    assert!(matches!(
        writer_observe_frame(CurrentStage::Startup, SetStage::Play),
        CurrentStage::Play
    ));
    assert!(matches!(
        writer_observe_frame(CurrentStage::Play, SetStage::NoSet),
        CurrentStage::Play
    ));
    assert!(matches!(
        writer_apply_announcement(NextStage::Config),
        CurrentStage::Config
    ));
}

fn offline_settings() -> LoginSettings {
    LoginSettings {
        reject_new_conns: false,
        over_capacity: false,
        compress_threshold: 256,
        mojauth_enabled: false,
    }
}

#[test]
fn offline_login_emits_packets_in_order() {
    let token = [1u8, 2, 3, 4];
    let cfg = offline_settings();

    let (state, actions) = login_step(
        ConnStateLogin::WaitingForHello,
        LoginEvent::Hello { username: String::from("Test") },
        &cfg,
        token,
    );
    assert!(matches!(
        actions.as_slice(),
        [
            LoginAction::SendLoginCompression { threshold: 256 },
            LoginAction::EnableCompression { threshold: 256 },
            LoginAction::SendEncryptionRequest { verify_token: [1, 2, 3, 4], should_auth: false },
        ]
    ));
    let state = state.expect("login continues");

    let (state, actions) = login_step(
        state,
        LoginEvent::Key {
            decrypted_verify_token: Some(vec![1, 2, 3, 4]),
            decrypted_secret: Some(vec![0xAA; 16]),
        },
        &cfg,
        token,
    );
    assert!(matches!(
        actions.as_slice(),
        [LoginAction::InstallCipher { .. }, LoginAction::ResolveOffline { .. }]
    ));
    let state = state.expect("login continues");

    let (state, actions) = login_step(
        state,
        LoginEvent::MojauthOk { uuid: 77, username: String::from("Test"), props: vec![] },
        &cfg,
        token,
    );
    assert!(actions.is_empty());
    let state = state.expect("login continues");

    let (state, actions) = login_step(state, LoginEvent::Tick, &cfg, token);
    assert!(matches!(
        actions.as_slice(),
        [LoginAction::SendLoginFinished { uuid: 77, .. }]
    ));
    let state = state.expect("login continues");

    let (state, actions) = login_step(state, LoginEvent::LoginAcknowledged, &cfg, token);
    assert!(matches!(
        actions.as_slice(),
        [
            LoginAction::EnterConfigStage,
            LoginAction::SendBrand,
            LoginAction::SendSelectKnownPacks,
            LoginAction::SendRegistryData,
            LoginAction::CreatePlayer { uuid: 77, .. },
            LoginAction::SendFinishConfiguration,
        ]
    ));
    let state = state.expect("login continues");

    let (state, actions) = login_step(state, LoginEvent::FinishConfiguration, &cfg, token);
    assert!(matches!(
        actions.as_slice(),
        [
            LoginAction::EnterPlayStage,
            LoginAction::StartKeepalive,
            LoginAction::EmitPlayerJoined,
            LoginAction::AnnouncePlayStage,
            LoginAction::SendLoginPlay,
            LoginAction::SendPlayerInfo { uuid: 77, .. },
            LoginAction::SendAddEntity { uuid: 77 },
            LoginAction::SendGameEventWaitForChunks,
        ]
    ));
    assert!(state.is_none(), "login hands over to the play state");
}

#[test]
fn tampered_verify_token_kicks() {
    let token = [1u8, 2, 3, 4];
    let cfg = offline_settings();
    let (state, _) = login_step(
        ConnStateLogin::WaitingForHello,
        LoginEvent::Hello { username: String::from("Test") },
        &cfg,
        token,
    );
    let (state, actions) = login_step(
        state.unwrap(),
        LoginEvent::Key {
            decrypted_verify_token: Some(vec![0, 0, 0, 0]),
            decrypted_secret: Some(vec![0xAA; 16]),
        },
        &cfg,
        token,
    );
    assert!(matches!(
        actions.as_slice(),
        [LoginAction::Kick { reason: LoginKick::KeyVerifyFailed }]
    ));
    assert!(matches!(
        state,
        Some(ConnStateLogin::ExchangingKeys { .. })
    ));
}

#[test]
fn over_capacity_hello_is_kicked_as_full() {
    let token = [0u8; 4];
    let cfg = LoginSettings { over_capacity: true, ..offline_settings() };
    let (state, actions) = login_step(
        ConnStateLogin::WaitingForHello,
        LoginEvent::Hello { username: String::from("Second") },
        &cfg,
        token,
    );
    assert!(matches!(
        actions.as_slice(),
        [LoginAction::Kick { reason: LoginKick::ServerFull }]
    ));
    assert!(matches!(state, Some(ConnStateLogin::WaitingForHello)));
}

#[test]
fn failed_mojauth_kicks_with_the_message() {
    let token = [0u8; 4];
    let cfg = LoginSettings { mojauth_enabled: true, ..offline_settings() };
    let (state, actions) = login_step(
        ConnStateLogin::CheckingMojauth,
        LoginEvent::MojauthErr { message: String::from("no session") },
        &cfg,
        token,
    );
    assert!(matches!(state, Some(ConnStateLogin::CheckingMojauth)));
    match actions.as_slice() {
        [LoginAction::Kick { reason: LoginKick::AuthFailed { message } }] => {
            assert_eq!(message, "no session");
        }
        _ => panic!("an authentication failure kicks"),
    }
}

#[test]
fn view_distance_cannot_regress_on_stale_updates() {
    let mut view = flywheelmc_players::world::ViewDistance::new_min();
    assert_eq!(view.take_dirty(), Some(1));
    view.apply_update(10, 12, 5);
    assert_eq!(view.get(), 10);
    // A stale packet with a smaller stamp cannot regress the value.
    view.apply_update(3, 12, 4);
    assert_eq!(view.get(), 10);
    // A later one clamps against the configured maximum.
    view.apply_update(20, 12, 6);
    assert_eq!(view.get(), 12);
    // Zero encodes no distance and is ignored.
    view.apply_update(0, 12, 7);
    assert_eq!(view.get(), 12);
    assert_eq!(view.take_dirty(), Some(12));
    assert_eq!(view.take_dirty(), None);
}

#[test]
fn chunk_centre_reports_dirty_once() {
    let mut centre = flywheelmc_players::world::ChunkCentre::new_dirty(0, 0);
    assert_eq!(centre.take_dirty(), Some((0, 0)));
    assert_eq!(centre.take_dirty(), None);
    centre.set(5, -3);
    assert_eq!(centre.take_dirty(), Some((5, -3)));
}

#[test]
fn plugin_settings_compute_capacity() {
    let plugin = flywheelmc_players::FlywheelMcPlayersPlugin {
        max_conns: Some(1),
        listen_addrs: vec![String::from("0.0.0.0:25565")],
        motd: String::from("hi"),
        version: String::from("1.21"),
        favicon: String::new(),
        compress_threshold: 256,
        mojauth_enabled: false,
        server_id: String::new(),
        server_brand: String::from("flywheel"),
        kick_footer: String::from("bye"),
        default_dim_id: String::from("overworld"),
        default_dim_height: 384,
        max_view_distance: 12,
    };
    let settings = plugin.login_settings(2, false);
    assert!(settings.over_capacity);
    let settings = plugin.login_settings(1, false);
    assert!(!settings.over_capacity);
}

#[test]
fn frames_survive_the_wire_round_trip() {
    // What one connection queues for the writer, a peer's connection
    // reads back intact, in both framing modes.
    for mode in [CompressionMode::Plain, CompressionMode::ZLib { threshold: 64 }] {
        let mut sender = Connection::new(String::from("a"));
        sender.set_compression(mode);
        let mut receiver = Connection::new(String::from("b"));
        receiver.set_compression(mode);
        sender.send_packet_noset(&vec![0x10, 0x20, 0x30]);
        sender.send_packet_noset(&vec![0x40]);
        for frame in sender.drain_outbound() {
            receiver.ingest_plain(&frame.bytes);
        }
        match receiver.read_packet() {
            flywheelmc_players::conn::PacketReadOutcome::Packet { data } => {
                assert_eq!(data, vec![0x10, 0x20, 0x30]);
            }
            _ => panic!("the first frame must decode"),
        }
        match receiver.read_packet() {
            flywheelmc_players::conn::PacketReadOutcome::Packet { data } => {
                assert_eq!(data, vec![0x40]);
            }
            _ => panic!("the second frame must decode"),
        }
        assert!(matches!(
            receiver.read_packet(),
            flywheelmc_players::conn::PacketReadOutcome::Pending
        ));
    }
}

#[test]
fn packets_wrap_their_stage_kinds() {
    let config: Packet = ConfigPacketKind::KeepAlive { id: 9 }.into();
    assert!(matches!(config, Packet::Config(ConfigPacketKind::KeepAlive { id: 9 })));
    let play: Packet = Packet::from(PlayPacketKind::ClientTickEnd);
    assert!(matches!(play, Packet::Play(PlayPacketKind::ClientTickEnd)));
}

#[test]
fn rejected_hello_is_kicked_and_nothing_follows() {
    // With rejection active, the hello earns exactly one kick: no
    // compression, no key exchange, and the state stays at the hello.
    let token = [9u8; 4];
    let cfg = LoginSettings { reject_new_conns: true, ..offline_settings() };
    let (state, actions) = login_step(
        ConnStateLogin::WaitingForHello,
        LoginEvent::Hello { username: String::from("Test") },
        &cfg,
        token,
    );
    assert!(matches!(
        actions.as_slice(),
        [LoginAction::Kick { reason: LoginKick::Rejected }]
    ));
    assert!(matches!(state, Some(ConnStateLogin::WaitingForHello)));
}

#[test]
fn canonical_storage_never_grows_past_its_blocks() {
    // Writing and then reverting a cell collapses back to one run:
    // reading any cell finds air again.
    let mut world = flywheelmc_players::world::World::new(String::from("overworld"), 16);
    assert!(world.try_load_chunk(0, 0));
    world.set_blocks(&vec![((5i64, 5u16, 5i64), 3u32)]);
    world.set_blocks(&vec![((5i64, 5u16, 5i64), 0u32)]);
    for &(x, y, z) in &[(5i64, 5u16, 5i64), (0, 0, 0), (15, 15, 15)] {
        assert_eq!(world.get_block(x, y, z), Some(0));
    }
}

#[test]
fn deflated_bodies_frame_behind_their_plain_length() {
    // A body at or above the threshold travels deflated: the frame
    // carries the total length, the plain length, then the compressed
    // bytes an external deflater produced.
    let mut conn = Connection::new(String::from("peer"));
    conn.set_compression(CompressionMode::ZLib { threshold: 4 });
    let deflated = vec![0xD1, 0xD2, 0xD3];
    conn.send_packet_deflated(SetStage::NoSet, 300, &deflated);
    let frames = conn.drain_outbound();
    assert_eq!(frames.len(), 1);
    // varint(300) == [0xAC, 0x02], so the inner length is 5.
    assert_eq!(frames[0].bytes, vec![5, 0xAC, 0x02, 0xD1, 0xD2, 0xD3]);
}

#[test]
fn decoder_reports_map_to_their_policies() {
    assert!(matches!(decoder_policy(&DecoderOutcome::Decoded), DecoderPolicy::Handle));
    assert!(matches!(
        decoder_policy(&DecoderOutcome::EndOfBuffer),
        DecoderPolicy::RetryNextTick
    ));
    assert!(matches!(
        decoder_policy(&DecoderOutcome::InvalidData),
        DecoderPolicy::KickBadPacket
    ));
    assert!(matches!(
        decoder_policy(&DecoderOutcome::UnconsumedBuffer),
        DecoderPolicy::KickBadPacket
    ));
    assert!(matches!(
        decoder_policy(&DecoderOutcome::UnknownPacketPrefix { prefix: 0x7E }),
        DecoderPolicy::WarnAndDrop
    ));
}

#[test]
fn kick_payload_composes_the_five_components() {
    let pieces = kick_payload(
        String::from("Timed out"),
        String::from("see you"),
        String::from("2024-01-01 00:00:00"),
    );
    assert_eq!(pieces.len(), 5);
    assert_eq!(pieces[0].text, "Timed out");
    assert!(matches!(
        pieces[0].colour,
        Some(KickColour::Rgb { red: 178, green: 255, blue: 228 })
    ));
    assert!(!pieces[0].underlined);
    assert_eq!(pieces[1].text, "\n\n\n");
    assert_eq!(pieces[2].text, "see you");
    assert!(pieces[2].underlined);
    assert_eq!(pieces[3].text, "\n");
    assert_eq!(pieces[4].text, "2024-01-01 00:00:00");
    assert!(matches!(pieces[4].colour, Some(KickColour::DarkGrey)));
}

#[test]
fn titles_send_animation_before_their_texts() {
    let sends = comms_sends(TextCommsAction::Title {
        title: String::from("hello"),
        subtitle: String::from("world"),
        fade_in: 5,
        stay: 60,
        fade_out: 5,
    });
    assert!(matches!(
        sends.as_slice(),
        [
            CommsSend::SetTitlesAnimation { fade_in: 5, stay: 60, fade_out: 5 },
            CommsSend::SetSubtitleText { .. },
            CommsSend::SetTitleText { .. },
        ]
    ));
    let chat = comms_sends(TextCommsAction::Chat { message: String::from("hi") });
    assert!(matches!(
        chat.as_slice(),
        [CommsSend::SystemChat { actionbar: false, .. }]
    ));
    let bar = comms_sends(TextCommsAction::Actionbar { message: String::from("hi") });
    assert!(matches!(
        bar.as_slice(),
        [CommsSend::SystemChat { actionbar: true, .. }]
    ));
}
