//! Behavioral tests: the handshake, the first-update burst, lap
//! completion, liveness, the framing codec and the world model.
use acserver::cars::Cars;
use acserver::clients::Clients;
use acserver::codec::Codec;
use acserver::config::Config;
use acserver::config::ConfigError;
use acserver::config::DynamicTrackConfig;
use acserver::config::GameOptions;
use acserver::config::Log;
use acserver::config::LogLevel;
use acserver::config::ServerOptions as ServerConfig;
use acserver::config::Sessions as SessionsConfig;
use acserver::config::WeatherConfig;
use acserver::config::Wind as WindConfig;
use acserver::game::handle_join_request;
use acserver::game::handle_tcp_packet;
use acserver::game::handle_udp_message;
use acserver::game::accept_new_player;
use acserver::game::send_pings_and_updates;
use acserver::game::JoinOutcome;
use acserver::game::Outbound;
use acserver::game::ServerState;
use acserver::options::ServerOptions;
use acserver::packets::client::CarUpdate;
use acserver::packets::client::JoinRequest;
use acserver::packets::client::LapCompleted as LapCompletedC;
use acserver::packets::client::TestClient;
use acserver::packets::common::Vec3f;
use acserver::packets::server::TestServer;
use acserver::strings::ByteString;
use acserver::strings::Optional;
use acserver::strings::WideString;
use acserver::track::DynamicTrack;
use acserver::weather::SunAngle;
use acserver::wire::Error;
use acserver::wire::Readable;
use acserver::wire::Writeable;
use acserver::wire::F32;

fn base_config() -> Config {
    Config {
        server: ServerConfig {
            name: b"test server".to_vec(),
            udp_port: 9600,
            tcp_port: 9600,
            http_port: 8081,
            max_clients: 2,
            welcome_message: b"welcome".to_vec(),
            client_send_interval_hz: 20,
        },
        game: GameOptions {
            legal_tyres: b"SV".to_vec(),
            force_virtual_mirror: false,
            tc_allowed: 1,
            abs_allowed: 1,
            stability_allowed: false,
            autoclutch_allowed: false,
            tyre_blankets_allowed: false,
            start_rule: 0,
            password: None,
            admin_password: None,
            max_contacts_per_km: 5,
            allowed_tyres: -1,
            vote_duration_ms: 30000,
            has_extra_lap: false,
            pit_window_start: 0,
            pit_window_end: 0,
            inverted_grid_positions: 4,
            race_gas_penalty_disabled: false,
            damage_multiplier_bits: 0,
            fuel_rate_bits: 0,
            tyre_wear_rate_bits: 0,
        },
        dynamictrack: DynamicTrackConfig {
            enabled: true,
            base_grip: 800,
            session_start_grip: 800,
            grip_per_lap: 100,
            random_grip: 0,
            session_transfer: 500,
        },
        weathers: vec![WeatherConfig {
            graphics: b"3_clear".to_vec(),
            base_ambient: 26000,
            base_road: 32000,
            variation_ambient: 2000,
            variation_road: 3000,
            wind: WindConfig {
                base_speed_min: 0,
                base_speed_max: 10,
                base_direction: 30,
                variation_direction: 15,
            },
        }],
        sessions: SessionsConfig {
            result_screen_time_ms: 10000,
            race_over_time_ms: 30000,
            sessions: vec![
                acserver::config::Session {
                    name: b"Practice".to_vec(),
                    session_type: 1,
                    time: 600,
                    laps: 5,
                },
                acserver::config::Session {
                    name: b"Race".to_vec(),
                    session_type: 3,
                    time: 900,
                    laps: 10,
                },
            ],
        },
        sun_angle: -16000,
        time_of_day_multiplier: 1000,
        track: b"monza".to_vec(),
        cars: vec![
            (b"ks_m190".to_vec(), b"red".to_vec()),
            (b"ks_m190".to_vec(), b"blue".to_vec()),
        ],
        log: Log { level: LogLevel::Info },
    }
}

fn fresh_state(cfg: Config) -> ServerState {
    let options = ServerOptions::new(&cfg, 0);
    let cars = Cars::new(cfg.cars.clone());
    ServerState {
        config: cfg,
        options,
        clients: Clients::new(),
        cars,
        start_ms: 0,
    }
}

fn join_request(version: u16, model: &[u8], guid: &[u8]) -> JoinRequest {
    JoinRequest {
        protocol_version: version,
        guid: ByteString(guid.to_vec()),
        driver_name: WideString(vec![68, 114]),
        unknown: 0,
        driver_country: ByteString(b"FIN".to_vec()),
        car_name: ByteString(model.to_vec()),
        server_password: ByteString(Vec::new()),
    }
}

fn car_update() -> CarUpdate {
    CarUpdate {
        pak_sequence_id: 7,
        timestamp: 1000,
        pos: Vec3f { x: F32(1), y: F32(2), z: F32(3) },
        rotation: Vec3f { x: F32(0), y: F32(0), z: F32(0) },
        velocity: Vec3f { x: F32(0), y: F32(0), z: F32(0) },
        tyre_angular_speed: 1,
        tyre_angular_speed1: 2,
        tyre_angular_speed2: 3,
        tyre_angular_speed3: 4,
        steer_angle: 5,
        wheel_angle: 6,
        engine_rpm: 4000,
        gear: 3,
        status: 0,
        performance_delta: 0,
        gas: 100,
        normalized_pos: F32(0),
    }
}

#[test]
fn handshake_wrong_protocol() {
    let mut state = fresh_state(base_config());
    let req = join_request(100, b"ks_m190", b"guid-a");
    let outcome = handle_join_request(&mut state, &req, F32(0), F32(0x3F4CCCCD), 5);
    match outcome {
        JoinOutcome::WrongProtocol(p) => assert_eq!(p.protocol_version, 202),
        other => panic!("expected a protocol refusal, got {:?}", other),
    }
    assert!(state.cars.cars.iter().all(|c| c.driver.is_none()));
}

#[test]
fn handshake_slot_exhaustion() {
    let mut cfg = base_config();
    cfg.cars = vec![(b"ks_m190".to_vec(), b"red".to_vec())];
    let mut state = fresh_state(cfg);
    let first =
        handle_join_request(&mut state, &join_request(202, b"ks_m190", b"guid-a"), F32(0), F32(0), 5);
    assert!(matches!(first, JoinOutcome::Accepted(0, false, _)));
    assert_eq!(state.cars.num_of_clients(), 1);
    let second =
        handle_join_request(&mut state, &join_request(202, b"ks_m190", b"guid-b"), F32(0), F32(0), 6);
    assert!(matches!(second, JoinOutcome::NoSlots));
    assert_eq!(state.cars.num_of_clients(), 1);
}

#[test]
fn handshake_welcome_fields() {
    let mut state = fresh_state(base_config());
    let outcome =
        handle_join_request(&mut state, &join_request(202, b"ks_m190", b"guid-a"), F32(0), F32(0), 5);
    match outcome {
        JoinOutcome::Accepted(slot, admin, w) => {
            assert_eq!(slot, 0);
            assert!(!admin);
            assert_eq!(w.session_info.session_id, 0);
            assert_eq!(w.session_info.session_name.0, b"Practice".to_vec());
            assert_eq!(w.session_info.session_laps, 5);
            assert_eq!(w.server_info.server_port, 9600);
            assert_eq!(w.server_info.track.0, b"monza".to_vec());
            assert_eq!(w.server_info.car_model.0, b"ks_m190".to_vec());
        },
        other => panic!("expected acceptance, got {:?}", other),
    }
}

#[test]
fn guid_eviction_keeps_one_client() {
    let mut state = fresh_state(base_config());
    accept_new_player(&mut state, 0, b"guid-a".to_vec(), 1, false, 0);
    let (id_b, _) = accept_new_player(&mut state, 1, b"guid-a".to_vec(), 2, false, 0);
    let survivor = state.clients.get(id_b).expect("the new client is registered");
    assert_eq!(survivor.car_id, 1);
    assert_eq!(survivor.guid, b"guid-a".to_vec());
    let active = state
        .clients
        .slots
        .iter()
        .filter(|s| s.is_some())
        .count();
    assert_eq!(active, 1);
}

#[test]
fn first_update_burst() {
    let mut state = fresh_state(base_config());
    let (id_a, _) = accept_new_player(&mut state, 0, b"guid-a".to_vec(), 1, false, 0);
    accept_new_player(&mut state, 1, b"guid-b".to_vec(), 2, false, 0);
    let burst =
        handle_udp_message(&mut state, 1, 40000, &TestClient::CarUpdate(car_update()), 5, F32(0));
    assert!(burst.len() >= 4);
    assert!(matches!(&burst[0], Outbound::Udp(t, TestServer::MegaPacket(_)) if *t == id_a));
    assert!(matches!(&burst[1], Outbound::Tcp(t, TestServer::WelcomeMessage(_)) if *t == id_a));
    assert!(matches!(&burst[2], Outbound::Tcp(t, TestServer::Weather(_)) if *t == id_a));
    assert!(matches!(
        &burst[burst.len() - 1],
        Outbound::Tcp(t, TestServer::Bops(_)) if *t == id_a
    ));
    let again =
        handle_udp_message(&mut state, 1, 40000, &TestClient::CarUpdate(car_update()), 6, F32(0));
    assert!(again.is_empty());
}

#[test]
fn lone_client_burst_is_exactly_four_messages() {
    let mut cfg = base_config();
    cfg.cars = vec![(b"ks_m190".to_vec(), b"red".to_vec())];
    let mut state = fresh_state(cfg);
    let (id, _) = accept_new_player(&mut state, 0, b"guid-a".to_vec(), 1, false, 0);
    let burst =
        handle_udp_message(&mut state, 1, 40000, &TestClient::CarUpdate(car_update()), 5, F32(0));
    assert_eq!(burst.len(), 4);
    assert!(matches!(&burst[0], Outbound::Udp(t, TestServer::MegaPacket(_)) if *t == id));
    assert!(matches!(&burst[1], Outbound::Tcp(t, TestServer::WelcomeMessage(_)) if *t == id));
    assert!(matches!(&burst[2], Outbound::Tcp(t, TestServer::Weather(_)) if *t == id));
    assert!(matches!(&burst[3], Outbound::Tcp(t, TestServer::Bops(_)) if *t == id));
}

#[test]
fn optional_value_roundtrips() {
    let mut bytes: Vec<u8> = Vec::new();
    Optional::Present(7u32).write(&mut bytes);
    Optional::<u32>::Absent.write(&mut bytes);
    assert_eq!(bytes, vec![1, 7, 0, 0, 0, 0]);
    let mut pos: usize = 0;
    let first = Optional::<u32>::read(&bytes, &mut pos).unwrap();
    let second = Optional::<u32>::read(&bytes, &mut pos).unwrap();
    assert_eq!(first, Optional::Present(7));
    assert_eq!(second, Optional::Absent);
    assert_eq!(pos, bytes.len());
    let bad: Vec<u8> = vec![2];
    let mut pos2: usize = 0;
    assert_eq!(Optional::<u32>::read(&bad, &mut pos2).unwrap_err(), Error::InvalidBool);
}

#[test]
fn lap_completed_broadcast() {
    let mut state = fresh_state(base_config());
    let (id_a, _) = accept_new_player(&mut state, 0, b"guid-a".to_vec(), 1, false, 0);
    let (id_b, _) = accept_new_player(&mut state, 1, b"guid-b".to_vec(), 2, false, 0);
    let lap = TestClient::LapCompleted(LapCompletedC {
        timestamp: 1000,
        laptime: 61234,
        splits: vec![30000, 31234],
        cuts: 1,
        numlap: 1,
    });
    let out = handle_tcp_packet(&mut state, id_a, &lap, 1000, F32(0x3F800000));
    assert_eq!(state.options.laps.laps.len(), 1);
    assert_eq!(state.options.laps.laps[0].car_id, 0);
    assert_eq!(state.options.laps.laps[0].laptime, 61234);
    assert_eq!(state.options.laps.laps[0].lap_count, 0);
    assert_eq!(state.clients.get(id_a).unwrap().status.laps, 1);
    assert_eq!(out.len(), 1);
    match &out[0] {
        Outbound::Tcp(t, TestServer::LapCompleted(p)) => {
            assert_eq!(*t, id_b);
            assert_eq!(p.car_id, 0);
            assert_eq!(p.laptime, 61234);
            assert_eq!(p.cuts, 1);
            assert_eq!(p.laps.len(), 1);
            assert_eq!(p.grip_level.0, 0x3F800000);
        },
        other => panic!("expected a lap broadcast, got {:?}", other),
    }
}

#[test]
fn silent_client_removed_within_one_tick() {
    let mut state = fresh_state(base_config());
    let (id_a, _) = accept_new_player(&mut state, 0, b"guid-a".to_vec(), 1, false, 0);
    let (id_b, _) = accept_new_player(&mut state, 1, b"guid-b".to_vec(), 2, false, 9000);
    let (removed, _) = send_pings_and_updates(&mut state, 10001);
    assert_eq!(removed, vec![id_a]);
    assert!(state.clients.get(id_a).is_none());
    assert!(state.clients.get(id_b).is_some());
    assert!(state.cars.cars[0].driver.is_none());
}

#[test]
fn codec_reassembles_partitioned_stream() {
    let mut whole: Vec<u8> = Vec::new();
    let mut encoder = Codec::new();
    let packet = TestClient::CarlistRequest(acserver::packets::client::CarlistRequest { index: 3 });
    encoder.encode(&packet, &mut whole).unwrap();
    let packet2 = TestClient::Pong(acserver::packets::client::Pong { ping: 7, time_offset: 9 });
    encoder.encode(&packet2, &mut whole).unwrap();

    for split in 0..whole.len() {
        let mut codec = Codec::new();
        codec.accept(&whole[..split]);
        let mut got: Vec<TestClient> = Vec::new();
        while let Ok(Some(p)) = codec.next_packet::<TestClient>() {
            got.push(p);
        }
        codec.accept(&whole[split..]);
        while let Ok(Some(p)) = codec.next_packet::<TestClient>() {
            got.push(p);
        }
        assert_eq!(got.len(), 2);
        assert!(matches!(&got[0], TestClient::CarlistRequest(c) if c.index == 3));
        assert!(matches!(&got[1], TestClient::Pong(p) if p.ping == 7 && p.time_offset == 9));
    }
}

#[test]
fn boolean_bytes_outside_zero_one_rejected() {
    let frame: Vec<u8> = vec![0x0d, 1, 0, 2];
    let mut pos: usize = 0;
    let r = TestClient::read(&frame, &mut pos);
    assert_eq!(r.unwrap_err(), Error::InvalidBool);
}

#[test]
fn unknown_packet_id_rejected() {
    let frame: Vec<u8> = vec![0x99, 0, 0];
    let mut pos: usize = 0;
    let r = TestClient::read(&frame, &mut pos);
    assert_eq!(r.unwrap_err(), Error::UnknownPacketId);
}

#[test]
fn truncated_packet_rejected() {
    let frame: Vec<u8> = vec![0xf8, 1, 2];
    let mut pos: usize = 0;
    let r = TestClient::read(&frame, &mut pos);
    assert_eq!(r.unwrap_err(), Error::UnexpectedEof);
}

#[test]
fn wide_string_invalid_scalar_rejected() {
    let frame: Vec<u8> = vec![0x47, 0, 1, 0x00, 0xD8, 0x00, 0x00];
    let mut pos: usize = 0;
    let r = TestClient::read(&frame, &mut pos);
    assert_eq!(r.unwrap_err(), Error::InvalidChar);
}

#[test]
fn grip_stays_in_unit_interval_and_grows() {
    let mut grip = DynamicTrack::new(true, 800, 800, 100, 0, 500);
    let g0 = grip.grip();
    assert_eq!(g0, 800);
    grip.on_lap_complete();
    let g1 = grip.grip();
    assert_eq!(g1, 900);
    grip.on_lap_complete();
    grip.on_lap_complete();
    grip.on_lap_complete();
    let g4 = grip.grip();
    assert_eq!(g4, 1000);
    assert!(g0 <= g1 && g1 <= g4);
}

#[test]
fn sun_angle_clamped() {
    let sun = SunAngle::new(-80000, 1000);
    let early = sun.calc(0);
    assert_eq!(early, -80000);
    let late = sun.calc(10 * 60 * 60);
    assert_eq!(late, 80000);
    let mid = sun.calc(1000);
    assert_eq!(mid, -80000 + 1000 * 44);
}

#[test]
fn session_transfer_accumulates_gained_grip() {
    let mut grip = DynamicTrack::new(true, 500, 500, 0, 0, 1000);
    grip.gained_grip = 1000;
    grip.on_new_session();
    assert_eq!(grip.gained_grip, 1000 + (500 - 1000));
    grip.on_new_session();
    assert_eq!(grip.gained_grip, 500 + (500 - 1000));
}

#[test]
fn session_advance_wraps_and_clears_ledger() {
    let mut state = fresh_state(base_config());
    state.options.laps.add_lap(acserver::packets::server::Lap {
        car_id: 0,
        laptime: 60000,
        lap_count: 0,
        has_completed_last_lap: false,
    });
    state.options.next_session(1000);
    assert_eq!(state.options.sessions.get_current(), 1);
    assert_eq!(state.options.laps.laps.len(), 0);
    assert_eq!(state.options.grip_level.laps, 0);
    state.options.next_session(2000);
    assert_eq!(state.options.sessions.get_current(), 0);
}

#[test]
fn config_validation_reports_first_violation() {
    let mut cfg = base_config();
    assert!(acserver::config::validate(&cfg).is_ok());
    cfg.weathers[0].base_road = 80000;
    assert_eq!(
        acserver::config::validate(&cfg).unwrap_err(),
        ConfigError::RoadTempTooHigh(0)
    );
    let mut cfg2 = base_config();
    cfg2.sessions.sessions[1].time = 0;
    assert_eq!(
        acserver::config::validate(&cfg2).unwrap_err(),
        ConfigError::SessionTimeZero(1)
    );
    let mut cfg3 = base_config();
    cfg3.sessions.result_screen_time_ms = 500;
    assert_eq!(
        acserver::config::validate(&cfg3).unwrap_err(),
        ConfigError::ResultScreenTimeTooShort
    );
    let mut cfg4 = base_config();
    cfg4.game.pit_window_start = 10;
    cfg4.game.pit_window_end = 5;
    assert_eq!(
        acserver::config::validate(&cfg4).unwrap_err(),
        ConfigError::PitWindowInverted
    );
    let mut cfg5 = base_config();
    cfg5.weathers[0].base_road = 72000;
    cfg5.weathers[0].variation_road = 3000;
    assert!(acserver::config::validate(&cfg5).is_ok());
}

#[test]
fn weather_resolution_stays_in_band() {
    let mut state = fresh_state(base_config());
    for _ in 0..20 {
        state.options.update_weather();
        let w = state.options.current_weather();
        assert!(w.ambient.temp >= 24000 && w.ambient.temp <= 28000);
        assert!(w.road.temp >= 29000 && w.road.temp <= 35000);
        assert!(w.wind.speed >= 0 && w.wind.speed <= 10);
        assert!(w.wind.direction > -360 && w.wind.direction < 360);
    }
}

#[test]
fn join_request_roundtrip_through_frame() {
    let req = join_request(202, b"ks_m190", b"guid-a");
    let mut codec = Codec::new();
    let mut bytes: Vec<u8> = Vec::new();
    codec
        .encode(&TestClient::JoinRequest(req.clone()), &mut bytes)
        .unwrap();
    let mut decoder = Codec::new();
    decoder.accept(&bytes);
    let got = decoder.next_packet::<TestClient>().unwrap().unwrap();
    match got {
        TestClient::JoinRequest(j) => {
            assert_eq!(j.protocol_version, 202);
            assert_eq!(j.guid.0, b"guid-a".to_vec());
            assert_eq!(j.car_name.0, b"ks_m190".to_vec());
            assert_eq!(j.driver_name.0, vec![68, 114]);
        },
        other => panic!("expected the join request back, got {:?}", other),
    }
}

#[test]
fn oversized_frame_refused_on_encode() {
    let mut codec = Codec::new();
    let mut bytes: Vec<u8> = Vec::new();
    let big = TestClient::Checksum(acserver::packets::client::Checksum {
        checksums: (0..5000)
            .map(|_| acserver::strings::MD5Array(vec![0u8; 16]))
            .collect(),
    });
    let r = codec.encode(&big, &mut bytes);
    assert_eq!(r.unwrap_err(), Error::FrameTooLong);
    assert!(bytes.is_empty());
}
