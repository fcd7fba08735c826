//! The game logic: the authoritative server state and the functions that
//! map one incoming packet or one tick to state changes and outgoing
//! messages.  The surrounding process performs the socket work and hands
//! these functions plain values: packets, addresses as numbers, and the
//! monotonic time in milliseconds.
use crate::cars::clone_bytes;
use crate::cars::Cars;
use crate::cars::Driver;
use crate::clients::Client;
use crate::clients::ClientId;
use crate::clients::Clients;
use crate::config::Config;
use crate::options::ServerOptions;
use crate::packets::client::JoinRequest;
use crate::packets::client::TestClient;
use crate::packets::common::PROTOCOL_VERSION;
use crate::packets::server::NewCarConnection;
use crate::packets::server::TestServer;
use crate::packets::server::WelcomeAssists;
use crate::packets::server::WelcomeExtras;
use crate::packets::server::WelcomeHandicaps;
use crate::packets::server::WelcomeRaceRules;
use crate::packets::server::WelcomeServerInfo;
use crate::packets::server::WelcomeSessionInfo;
use crate::packets::server::WrongProtocol;
use crate::strings::valid_wide_char;
use crate::strings::BigWideString;
use crate::strings::ByteString;
use crate::strings::WideString;
use crate::wire::F32;
use vstd::prelude::*;

verus! {

/// The game as a whole; the process entry point owns one.
pub struct Game {}

/// A packet of either direction, as the datagram plumbing carries it.
#[derive(Debug, Clone, PartialEq)]
pub enum PacketEnum {
    Client(TestClient),
    Server(TestServer),
}

impl PacketEnum {
    /// The client packet inside, if this is one.
    pub fn as_client(&self) -> (r: Option<&TestClient>)
        ensures
            (match r {
                Some(p) => *self == PacketEnum::Client(*p),
                None => self is Server,
            }),
    {
        if let PacketEnum::Client(v) = self {
            Some(v)
        } else {
            None
        }
    }

    /// The server packet inside, if this is one.
    pub fn as_server(&self) -> (r: Option<&TestServer>)
        ensures
            (match r {
                Some(p) => *self == PacketEnum::Server(*p),
                None => self is Client,
            }),
    {
        if let PacketEnum::Server(v) = self {
            Some(v)
        } else {
            None
        }
    }

    /// The server packet inside, or the value back unchanged.
    pub fn try_into_server(self) -> (r: Result<TestServer, PacketEnum>)
        ensures
            (match r {
                Ok(p) => self == PacketEnum::Server(p),
                Err(e) => e == self && self is Client,
            }),
    {
        if let PacketEnum::Server(v) = self {
            Ok(v)
        } else {
            Err(self)
        }
    }
}

/// One outbound message the surrounding process must deliver.
#[derive(Debug, Clone, PartialEq)]
pub enum Outbound {
    /// A frame on the given client's control stream.
    Tcp(ClientId, TestServer),
    /// A datagram to the given client's bound return address.
    Udp(ClientId, TestServer),
    /// A datagram to a raw address: an address as a number and a port.
    Datagram(u128, u16, TestServer),
}

/// The authoritative server state: the static configuration, the world,
/// the client registry and the car table.
pub struct ServerState {
    pub config: Config,
    pub options: ServerOptions,
    pub clients: Clients,
    pub cars: Cars,
    /// The monotonic time the server started, in milliseconds.
    pub start_ms: u64,
}

/// The configuration strings fit their wire lengths.
pub open spec fn config_wf(c: Config) -> bool {
    &&& c.server.name@.len() <= 255
    &&& c.server.welcome_message@.len() <= 65535
    &&& c.track@.len() <= 255
    &&& c.game.legal_tyres@.len() <= 255
    &&& (match c.game.password {
        Some(p) => p@.len() <= 255,
        None => true,
    })
    &&& (match c.game.admin_password {
        Some(p) => p@.len() <= 255,
        None => true,
    })
}

impl ServerState {
    /// The whole state is well formed: the car table, the registry
    /// against it, the world, and the configuration strings.
    pub open spec fn wf(&self) -> bool {
        &&& self.cars.wf()
        &&& self.clients.wf(self.cars.spec_cars().len() as int)
        &&& self.options.wf()
        &&& config_wf(self.config)
    }

    /// Milliseconds since the server started, truncated to the wire's
    /// 32-bit timestamps.
    pub fn timestamp(&self, now_ms: u64) -> (r: u32)
        requires
            now_ms >= self.start_ms,
        ensures
            r == (now_ms - self.start_ms) % 0x100000000,
    {
        ((now_ms - self.start_ms) % 0x100000000) as u32
    }
}

/// The UTF-8 encoding of one wide character.
pub open spec fn utf8_of_char(c: u32) -> Seq<u8> {
    if c < 0x80 {
        seq![c as u8]
    } else if c < 0x800 {
        seq![(0xC0 | (c >> 6)) as u8, (0x80 | (c & 0x3F)) as u8]
    } else if c < 0x10000 {
        seq![(0xE0 | (c >> 12)) as u8, (0x80 | ((c >> 6) & 0x3F)) as u8, (0x80 | (c & 0x3F)) as u8]
    } else {
        seq![
            (0xF0 | (c >> 18)) as u8,
            (0x80 | ((c >> 12) & 0x3F)) as u8,
            (0x80 | ((c >> 6) & 0x3F)) as u8,
            (0x80 | (c & 0x3F)) as u8,
        ]
    }
}

/// The UTF-8 encoding of a wide string.
pub open spec fn utf8_encode(w: Seq<u32>) -> Seq<u8>
    decreases w.len(),
{
    if w.len() == 0 {
        Seq::empty()
    } else {
        utf8_of_char(w[0]) + utf8_encode(w.skip(1))
    }
}

/// Encodes a wide string as UTF-8 bytes.
pub fn utf8_encode_exec(w: &WideString) -> (r: Vec<u8>)
    ensures
        r@ == utf8_encode(w@),
{
    let mut out: Vec<u8> = Vec::new();
    let mut i: usize = 0;
    assert(out@ =~= utf8_encode(w@.take(0)));
    while i < w.0.len()
        invariant
            i <= w.0@.len(),
            out@ == utf8_encode(w.0@.take(i as int)),
        decreases w.0@.len() - i,
    {
        let c = w.0[i];
        if c < 0x80 {
            out.push(c as u8);
        } else if c < 0x800 {
            out.push((0xC0 | (c >> 6)) as u8);
            out.push((0x80 | (c & 0x3F)) as u8);
        } else if c < 0x10000 {
            out.push((0xE0 | (c >> 12)) as u8);
            out.push((0x80 | ((c >> 6) & 0x3F)) as u8);
            out.push((0x80 | (c & 0x3F)) as u8);
        } else {
            out.push((0xF0 | (c >> 18)) as u8);
            out.push((0x80 | ((c >> 12) & 0x3F)) as u8);
            out.push((0x80 | ((c >> 6) & 0x3F)) as u8);
            out.push((0x80 | (c & 0x3F)) as u8);
        }
        proof {
            lemma_utf8_encode_snoc(w.0@, i as int);
            assert(out@ =~= utf8_encode(w.0@.take(i as int)) + utf8_of_char(w.0@[i as int]));
        }
        i = i + 1;
    }
    assert(w.0@.take(w.0@.len() as int) =~= w.0@);
    out
}

/// Extending a wide string by one character extends its UTF-8 encoding
/// by that character's bytes.
proof fn lemma_utf8_encode_snoc(w: Seq<u32>, i: int)
    requires
        0 <= i < w.len(),
    ensures
        utf8_encode(w.take(i + 1)) == utf8_encode(w.take(i)) + utf8_of_char(w[i]),
    decreases i,
{
    if i == 0 {
        assert(w.take(1)[0] == w[0]);
        assert(w.take(1).skip(1) =~= Seq::<u32>::empty());
        assert(utf8_encode(w.take(1).skip(1)) == Seq::<u8>::empty());
        assert(utf8_encode(w.take(0)) =~= Seq::<u8>::empty());
        assert(utf8_encode(w.take(1)) == utf8_of_char(w.take(1)[0]) + utf8_encode(
            w.take(1).skip(1),
        ));
        assert(utf8_encode(w.take(1)) =~= utf8_of_char(w[0]));
    } else {
        lemma_utf8_encode_snoc(w.skip(1), i - 1);
        assert(w.take(i + 1).skip(1) =~= w.skip(1).take(i));
        assert(w.take(i).skip(1) =~= w.skip(1).take(i - 1));
        assert(w.take(i + 1)[0] == w[0]);
        assert(w.take(i)[0] == w[0]);
        assert(utf8_of_char(w[0]) + (utf8_encode(w.skip(1).take(i - 1)) + utf8_of_char(
            w.skip(1)[i - 1],
        )) =~= (utf8_of_char(w[0]) + utf8_encode(w.skip(1).take(i - 1))) + utf8_of_char(w[i]));
    }
}

/// A wide name narrowed for the car table: its UTF-8 bytes, cut to the
/// wire's one-byte length.
pub open spec fn narrowed_name(w: Seq<u32>) -> Seq<u8> {
    if utf8_encode(w).len() <= 255 {
        utf8_encode(w)
    } else {
        utf8_encode(w).take(255)
    }
}

/// Narrows a wide name to at most 255 UTF-8 bytes.
pub fn narrow_name(w: &WideString) -> (r: Vec<u8>)
    ensures
        r@ == narrowed_name(w@),
        r@.len() <= 255,
{
    let mut bytes = utf8_encode_exec(w);
    if bytes.len() > 255 {
        bytes.truncate(255);
        assert(bytes@ =~= utf8_encode(w@).take(255));
    }
    bytes
}

/// The outcome of a join request.
#[derive(Debug, Clone, PartialEq)]
pub enum JoinOutcome {
    /// The reserved slot index, the admin flag and the welcome frame.
    Accepted(usize, bool, NewCarConnection),
    /// The protocol version this server speaks; the request named
    /// another.
    WrongProtocol(WrongProtocol),
    /// The password did not match.
    WrongPassword,
    /// No free slot offers the requested car model.
    NoSlots,
}

/// Whether the request carries the configured admin password.
pub open spec fn spec_is_admin(cfg: Config, req: JoinRequest) -> bool {
    match cfg.game.admin_password {
        Some(p) => req.server_password@ == p@,
        None => false,
    }
}

/// Whether the request fails the game password check: a password is
/// configured, the request is not the admin's, and the password sent
/// does not match.
pub open spec fn spec_wrong_password(cfg: Config, req: JoinRequest) -> bool {
    !spec_is_admin(cfg, req) && (match cfg.game.password {
        Some(p) => req.server_password@ != p@,
        None => false,
    })
}

/// Handles one join request.
///
/// A request with a protocol version other than the one the server
/// speaks is refused with that version and reserves nothing; a wrong
/// password is refused and reserves nothing; when no free slot offers
/// the requested model, nothing changes; otherwise the first such slot
/// is reserved for the request's driver and the welcome frame is built.
pub fn handle_join_request(
    state: &mut ServerState,
    req: &JoinRequest,
    sun_bits: F32,
    grip_bits: F32,
    now_ms: u64,
) -> (r: JoinOutcome)
    requires
        old(state).wf(),
        <JoinRequest as crate::wire::Writeable>::wf_v(req@),
        now_ms >= old(state).start_ms,
    ensures
        final(state).wf(),
        final(state).clients == old(state).clients,
        final(state).options == old(state).options,
        final(state).config == old(state).config,
        final(state).cars.spec_cars().len() == old(state).cars.spec_cars().len(),
        (match r {
            JoinOutcome::WrongProtocol(p) => {
                &&& req.protocol_version != PROTOCOL_VERSION
                &&& p.protocol_version == PROTOCOL_VERSION
                &&& final(state).cars == old(state).cars
            },
            JoinOutcome::WrongPassword => {
                &&& req.protocol_version == PROTOCOL_VERSION
                &&& spec_wrong_password(old(state).config, *req)
                &&& final(state).cars == old(state).cars
            },
            JoinOutcome::NoSlots => {
                &&& req.protocol_version == PROTOCOL_VERSION
                &&& !spec_wrong_password(old(state).config, *req)
                &&& (forall|j: int|
                    0 <= j < old(state).cars.spec_cars().len() ==> !crate::cars::matches_free(
                        #[trigger] old(state).cars.spec_cars()[j],
                        req.car_name@,
                    ))
                &&& final(state).cars == old(state).cars
            },
            JoinOutcome::Accepted(i, admin, w) => {
                &&& req.protocol_version == PROTOCOL_VERSION
                &&& !spec_wrong_password(old(state).config, *req)
                &&& admin == spec_is_admin(old(state).config, *req)
                &&& 0 <= i < old(state).cars.spec_cars().len()
                &&& crate::cars::matches_free(old(state).cars.spec_cars()[i as int], req.car_name@)
                &&& final(state).cars.spec_cars()[i as int].driver matches Some(d) && d.guid@
                    == req.guid@ && d.name@ == narrowed_name(req.driver_name@)
                &&& (forall|j: int|
                    0 <= j < old(state).cars.spec_cars().len() && j != i
                        ==> final(state).cars.spec_cars()[j] == old(state).cars.spec_cars()[j])
                &&& w.session_info.session_id == i as u8
                &&& w.session_info.session_index == old(state).options.sessions.spec_current()
                &&& w.session_info.session_name@
                    == old(state).options.sessions.spec_current_session().name@
                &&& w.session_info.session_type
                    == old(state).options.sessions.spec_current_session().session_type
                &&& w.session_info.session_laps
                    == old(state).options.sessions.spec_current_session().laps
                &&& w.server_info.server_port == old(state).config.server.tcp_port
                &&& w.server_info.track@ == old(state).config.track@
                &&& w.server_info.car_model@ == old(state).cars.spec_cars()[i as int].model@
                &&& w.server_info.car_skin@ == old(state).cars.spec_cars()[i as int].skin@
                &&& w.race_rules.pit_window_start == old(state).config.game.pit_window_start
                &&& w.race_rules.pit_window_end == old(state).config.game.pit_window_end
                &&& w.race_rules.inverted_grid_positions == old(
                    state,
                ).config.game.inverted_grid_positions
                &&& w.session_info.session_time
                    == old(state).options.sessions.spec_current_session().end_secs as u16
                &&& w.session_info.grip_level == grip_bits
                &&& w.session_info.session_start_time == old(
                    state,
                ).options.sessions.spec_start() as i64
                &&& w.session_info.sessions@.len()
                    == old(state).options.sessions.spec_sessions().len()
                &&& w.assists.sun_angle == sun_bits
                &&& w.server_info.server_name@ == crate::weather::widen_bytes(
                    old(state).config.server.name@,
                )
                &&& w.server_info.tickrate == old(state).config.server.client_send_interval_hz
                &&& w.extras.legal_tyres@ == old(state).config.game.legal_tyres@
                &&& w.extras.server_time == ((now_ms - old(state).start_ms) % 0x100000000) as u32
            },
        }),
{
    if req.protocol_version != PROTOCOL_VERSION {
        return JoinOutcome::WrongProtocol(WrongProtocol { protocol_version: PROTOCOL_VERSION });
    }
    let mut admin = false;
    match &state.config.game.admin_password {
        Some(p) => {
            admin = req.server_password.0 == *p;
            proof {
                if admin {
                    assert(req.server_password@ =~= p@);
                } else {
                    assert(req.server_password@ != p@);
                }
            }
        },
        None => {},
    }
    if !admin {
        match &state.config.game.password {
            Some(p) => {
                if !(req.server_password.0 == *p) {
                    return JoinOutcome::WrongPassword;
                }
                proof {
                    assert(req.server_password@ =~= p@);
                }
            },
            None => {},
        }
    }
    let driver = Driver {
        name: narrow_name(&req.driver_name),
        team: Vec::new(),
        nation: clone_bytes(&req.driver_country.0),
        guid: clone_bytes(&req.guid.0),
    };
    let index = match state.cars.try_add_car(&req.car_name.0, driver) {
        Ok(i) => i,
        Err(_) => {
            return JoinOutcome::NoSlots;
        },
    };
    let car_model = clone_bytes(&state.cars.cars[index].model);
    let car_skin = clone_bytes(&state.cars.cars[index].skin);
    let server_time = state.timestamp(now_ms);
    let seed = crate::weather::rand_index(0x7FFFFFFF) as u32;
    let welcome = NewCarConnection {
        server_info: WelcomeServerInfo {
            server_name: WideString(crate::weather::widen_bytes_exec(&state.config.server.name)),
            server_port: state.config.server.tcp_port,
            tickrate: state.config.server.client_send_interval_hz,
            track: ByteString(clone_bytes(&state.config.track)),
            track_config: ByteString(state.config.get_track_config()),
            car_model: ByteString(car_model),
            car_skin: ByteString(car_skin),
        },
        assists: WelcomeAssists {
            sun_angle: sun_bits,
            allowed_tyres: state.config.game.allowed_tyres,
            tyre_blankets_allowed: state.config.game.tyre_blankets_allowed,
            tc_allowed: crate::packets::common::OnOffFactoryOption::from_byte(
                state.config.game.tc_allowed,
            ),
            abs_allowed: crate::packets::common::OnOffFactoryOption::from_byte(
                state.config.game.abs_allowed,
            ),
            stability_allowed: state.config.game.stability_allowed,
            autoclutch_allowed: state.config.game.autoclutch_allowed,
        },
        handicaps: WelcomeHandicaps {
            start_rule: state.config.game.start_rule,
            damage_multiplier: F32(state.config.game.damage_multiplier_bits),
            fuel_rate: F32(state.config.game.fuel_rate_bits),
            tyre_wear_rate: F32(state.config.game.tyre_wear_rate_bits),
            force_mirror: state.config.game.force_virtual_mirror,
        },
        race_rules: WelcomeRaceRules {
            max_contacts_per_km: state.config.game.max_contacts_per_km,
            race_over_time: (state.config.sessions.race_over_time_ms % 0x100000000) as u32,
            result_screen_time: (state.config.sessions.result_screen_time_ms % 0x100000000) as u32,
            has_extra_lap: state.config.game.has_extra_lap,
            race_gas_penalty_disabled: state.config.game.race_gas_penalty_disabled,
            pit_window_start: state.config.game.pit_window_start,
            pit_window_end: state.config.game.pit_window_end,
            inverted_grid_positions: state.config.game.inverted_grid_positions,
        },
        session_info: WelcomeSessionInfo {
            session_id: index as u8,
            sessions: state.options.sessions.to_packet_list(),
            session_name: ByteString(
                clone_bytes(&state.options.sessions.get_current_session().name),
            ),
            session_index: state.options.sessions.get_current() as u8,
            session_type: state.options.sessions.get_current_session().session_type,
            session_time: state.options.sessions.get_current_session().end_secs as u16,
            session_laps: state.options.sessions.get_current_session().laps,
            grip_level: grip_bits,
            player_position: 0,
            session_start_time: state.options.sessions.get_start() as i64,
        },
        extras: WelcomeExtras {
            checksum_files: Vec::new(),
            legal_tyres: ByteString(clone_bytes(&state.config.game.legal_tyres)),
            random_seed: seed,
            server_time,
        },
    };
    JoinOutcome::Accepted(index, admin, welcome)
}

/// The first registry slot among the first `n` whose client carries the
/// given GUID.
pub open spec fn spec_first_guid_match(slots: Seq<Option<Client>>, guid: Seq<u8>, n: int) -> Option<
    int,
>
    decreases n,
{
    if n <= 0 {
        None
    } else {
        match spec_first_guid_match(slots, guid, n - 1) {
            Some(k) => Some(k),
            None => match slots[n - 1] {
                Some(c) => if c.guid@ == guid {
                    Some(n - 1)
                } else {
                    None
                },
                None => None,
            },
        }
    }
}

/// When no slot among the first `n` matches the GUID, no client there
/// carries it.
proof fn lemma_no_guid_match(slots: Seq<Option<Client>>, guid: Seq<u8>, n: int)
    requires
        spec_first_guid_match(slots, guid, n) is None,
    ensures
        forall|j: int|
            0 <= j < n ==> (match #[trigger] slots[j] {
                Some(c) => c.guid@ != guid,
                None => true,
            }),
    decreases n,
{
    if n > 0 {
        lemma_no_guid_match(slots, guid, n - 1);
    }
}

/// Registers a freshly handshaked client, evicting any prior client
/// with the same GUID: afterwards exactly one active client carries it.
pub fn accept_new_player(
    state: &mut ServerState,
    car_id: usize,
    guid: Vec<u8>,
    ip: u128,
    booked_as_admin: bool,
    now_ms: u64,
) -> (r: (ClientId, Vec<Outbound>))
    requires
        old(state).wf(),
        guid@.len() <= 255,
        car_id < old(state).cars.spec_cars().len(),
        forall|j: int|
            0 <= j < old(state).clients.spec_slots().len() ==> (
            match #[trigger] old(state).clients.spec_slots()[j] {
                Some(c) => c.car_id != car_id,
                None => true,
            }),
    ensures
        final(state).wf(),
        final(state).options == old(state).options,
        final(state).config == old(state).config,
        r.0.0 < final(state).clients.spec_slots().len(),
        (final(state).clients.spec_slots()[r.0.0 as int] matches Some(c) && c.guid@ == guid@
            && c.car_id == car_id && c.ip == ip && !c.has_sent_first_update),
        (forall|j: int|
            0 <= j < final(state).clients.spec_slots().len() && j != r.0.0 ==> (
            match #[trigger] final(state).clients.spec_slots()[j] {
                Some(c) => c.guid@ != guid@,
                None => true,
            })),
        (match spec_first_guid_match(
            old(state).clients.spec_slots(),
            guid@,
            old(state).clients.spec_slots().len() as int,
        ) {
            Some(k) => {
                let evicted = old(state).clients.spec_slots()[k]->Some_0;
                &&& final(state).cars.spec_cars()[evicted.car_id as int].driver is None
                &&& is_broadcast(
                    r.1@,
                    old(state).clients.spec_slots().update(k, Option::<Client>::None),
                    evicted.car_id as int,
                    crate::packets::server::TestServerView::ClientDisconnect(
                        crate::packets::server::ClientDisconnect {
                            car_id: evicted.car_id as u8,
                        },
                    ),
                )
            },
            None => r.1@.len() == 0 && final(state).cars == old(state).cars,
        }),
{
    let ghost guid0 = guid@;
    let mut outbound: Vec<Outbound> = Vec::new();
    let n = state.clients.slot_count();
    let mut i: usize = 0;
    let mut evict: Option<usize> = None;
    while i < n
        invariant
            i <= n == state.clients.spec_slots().len(),
            state == old(state),
            guid0 == guid@,
            (match evict {
                Some(k) => k < i && spec_first_guid_match(
                    state.clients.spec_slots(),
                    guid0,
                    i as int,
                ) == Some(k as int) && (state.clients.spec_slots()[k as int] matches Some(c)
                    && c.guid@ == guid0),
                None => spec_first_guid_match(state.clients.spec_slots(), guid0, i as int)
                    is None,
            }),
        decreases n - i,
    {
        if evict.is_none() {
            match state.clients.get(ClientId(i)) {
                Some(c) => {
                    if c.guid == guid {
                        proof {
                            assert(c.guid@ =~= guid0);
                        }
                        evict = Some(i);
                    } else {
                        proof {
                            if c.guid@ == guid0 {
                                assert(c.guid@ =~= guid@);
                            }
                        }
                    }
                },
                None => {},
            }
        }
        i = i + 1;
    }
    match evict {
        Some(k) => {
            let removed = state.clients.remove(ClientId(k));
            match removed {
                Some(old_client) => {
                    state.cars.remove_car(old_client.car_id);
                    proof {
                        assert(state.clients.spec_slots() =~= old(
                            state,
                        ).clients.spec_slots().update(k as int, Option::<Client>::None));
                        assert forall|j: int|
                            0 <= j < state.clients.spec_slots().len() implies (
                        match #[trigger] state.clients.spec_slots()[j] {
                            Some(c) => c.guid@ != guid0 && c.car_id != car_id,
                            None => true,
                        }) by {
                            if j != k as int {
                                assert(state.clients.spec_slots()[j] == old(
                                    state,
                                ).clients.spec_slots()[j]);
                            }
                        }
                    }
                    let ghost pv = crate::packets::server::TestServerView::ClientDisconnect(
                        crate::packets::server::ClientDisconnect {
                            car_id: old_client.car_id as u8,
                        },
                    );
                    let peers = peers_except(&state.clients, old_client.car_id);
                    let ghost pids = spec_peer_ids(
                        state.clients.spec_slots(),
                        old_client.car_id as int,
                        state.clients.spec_slots().len() as int,
                    );
                    let mut q: usize = 0;
                    while q < peers.len()
                        invariant
                            outbound@.len() == q,
                            q <= peers@.len(),
                            peers@.map_values(|x: usize| x as int) == pids,
                            state.wf(),
                            guid0 == guid@,
                            car_id < state.cars.spec_cars().len(),
                            state.options == old(state).options,
                            state.config == old(state).config,
                            state.clients.spec_slots() == old(state).clients.spec_slots().update(
                                k as int,
                                Option::<Client>::None,
                            ),
                            state.cars.spec_cars()[old_client.car_id as int].driver is None,
                            forall|j: int|
                                0 <= j < state.clients.spec_slots().len() ==> (
                                match #[trigger] state.clients.spec_slots()[j] {
                                    Some(c) => c.guid@ != guid0 && c.car_id != car_id,
                                    None => true,
                                }),
                            pv == crate::packets::server::TestServerView::ClientDisconnect(
                                crate::packets::server::ClientDisconnect {
                                    car_id: old_client.car_id as u8,
                                },
                            ),
                            forall|w: int|
                                0 <= w < q ==> ((#[trigger] outbound@[w]) matches Outbound::Tcp(
                                    t,
                                    pk,
                                ) && t.0 == pids[w] && pk@ == pv),
                        decreases peers@.len() - q,
                    {
                        outbound.push(
                            Outbound::Tcp(
                                ClientId(peers[q]),
                                TestServer::ClientDisconnect(
                                    crate::packets::server::ClientDisconnect {
                                        car_id: old_client.car_id as u8,
                                    },
                                ),
                            ),
                        );
                        assert(peers@.map_values(|x: usize| x as int)[q as int] == peers@[q as int]
                            as int);
                        q = q + 1;
                    }
                    assert(pids.len() == peers@.map_values(|x: usize| x as int).len());
                },
                None => {},
            }
        },
        None => {},
    }
    proof {
        if evict is None {
            lemma_no_guid_match(
                state.clients.spec_slots(),
                guid0,
                state.clients.spec_slots().len() as int,
            );
        }
        assert forall|j: int|
            0 <= j < state.clients.spec_slots().len() implies (
        match #[trigger] state.clients.spec_slots()[j] {
            Some(c) => c.guid@ != guid0 && c.car_id != car_id,
            None => true,
        }) by {}
    }
    let client = Client::new(car_id, guid, ip, booked_as_admin, now_ms);
    let ghost pre = state.clients.spec_slots();
    let id = state.clients.insert(client);
    proof {
        let s = state.clients.spec_slots();
        let ncars = state.cars.spec_cars().len() as int;
        assert forall|j: int|
            0 <= j < s.len() implies (match #[trigger] s[j] {
            Some(c) => c.wf() && c.car_id < ncars,
            None => true,
        }) by {
            if j < pre.len() && j != id.0 {
                assert(s[j] == pre[j]);
            }
        }
        assert forall|a: int, b: int|
            0 <= a < b < s.len() implies (match (#[trigger] s[a], #[trigger] s[b]) {
            (Some(x), Some(y)) => x.car_id != y.car_id && x.guid@ != y.guid@,
            _ => true,
        }) by {
            if a != id.0 && b != id.0 {
                assert(s[a] == pre[a] && s[b] == pre[b]);
            }
            if a == id.0 && b != id.0 {
                assert(s[b] == pre[b]);
            }
            if b == id.0 && a != id.0 {
                assert(s[a] == pre[a]);
            }
        }
    }
    (id, outbound)
}

/// The registry slots, in order, that hold a client whose car differs
/// from `except_car`: the broadcast targets for that car's messages.
pub open spec fn spec_peer_ids(slots: Seq<Option<Client>>, except_car: int, n: int) -> Seq<int>
    decreases n,
{
    if n <= 0 {
        Seq::empty()
    } else {
        let pre = spec_peer_ids(slots, except_car, n - 1);
        match slots[n - 1] {
            Some(c) => if c.car_id != except_car {
                pre.push(n - 1)
            } else {
                pre
            },
            None => pre,
        }
    }
}

/// The slots of all active clients whose car differs from `except_car`.
pub fn peers_except(clients: &Clients, except_car: usize) -> (r: Vec<usize>)
    ensures
        r@.map_values(|x: usize| x as int) == spec_peer_ids(
            clients.spec_slots(),
            except_car as int,
            clients.spec_slots().len() as int,
        ),
{
    let n = clients.slot_count();
    let mut out: Vec<usize> = Vec::new();
    let mut i: usize = 0;
    while i < n
        invariant
            i <= n == clients.spec_slots().len(),
            out@.map_values(|x: usize| x as int) == spec_peer_ids(
                clients.spec_slots(),
                except_car as int,
                i as int,
            ),
        decreases n - i,
    {
        let ghost pre = out@;
        match clients.get(ClientId(i)) {
            Some(c) => {
                if c.car_id != except_car {
                    out.push(i);
                    assert(out@.map_values(|x: usize| x as int) =~= pre.map_values(
                        |x: usize| x as int,
                    ).push(i as int));
                }
            },
            None => {},
        }
        i = i + 1;
    }
    out
}

/// The outbound list is exactly one control-stream copy of the packet
/// view `pv` for every active client whose car differs from
/// `except_car`, in slot order.
pub open spec fn is_broadcast(
    r: Seq<Outbound>,
    slots: Seq<Option<Client>>,
    except_car: int,
    pv: crate::packets::server::TestServerView,
) -> bool {
    let pids = spec_peer_ids(slots, except_car, slots.len() as int);
    &&& r.len() == pids.len()
    &&& (forall|k: int|
        0 <= k < r.len() ==> ((#[trigger] r[k]) matches Outbound::Tcp(t, p) && t.0 == pids[k]
            && p@ == pv))
}

/// Handles one control-stream packet from the given client.
///
/// The push-to-pass probe is answered; a spend is counted and told to
/// the peers.  A car-list request is answered from the car table.  A
/// disconnect removes the client, frees its slot and tells the peers.  A
/// checksum report changes nothing.  Chat, tyre changes and damage are
/// recorded where they are state and rebroadcast to the peers.  A lap
/// completion advances the client's lap counter by one, appends one row
/// to the lap ledger and broadcasts the ledger to the peers.  Packets
/// whose semantics the server does not implement are dropped.
pub fn handle_tcp_packet(
    state: &mut ServerState,
    id: ClientId,
    packet: &TestClient,
    now_ms: u64,
    grip_bits: F32,
) -> (r: Vec<Outbound>)
    requires
        old(state).wf(),
        id.0 < old(state).clients.spec_slots().len(),
        old(state).clients.spec_slots()[id.0 as int] is Some,
    ensures
        final(state).wf(),
        final(state).cars.spec_cars().len() == old(state).cars.spec_cars().len(),
        final(state).clients.spec_slots().len() == old(state).clients.spec_slots().len(),
        final(state).config == old(state).config,
        (match *packet {
            TestClient::P2PCount(p) => {
                let sender = old(state).clients.spec_slots()[id.0 as int]->Some_0;
                if p.count == -1 {
                    &&& *final(state) == *old(state)
                    &&& r@.len() == 1
                    &&& (r@[0] matches Outbound::Tcp(t, pk) && t == id && pk@
                        == crate::packets::server::TestServerView::P2PCount(
                        crate::packets::server::P2PCount {
                            car_id: sender.car_id as u8,
                            p2p_count: sender.status.p2p_count,
                            active: false,
                        },
                    ))
                } else {
                    let newcount = if sender.status.p2p_count > -32768 {
                        (sender.status.p2p_count - 1) as i16
                    } else {
                        sender.status.p2p_count
                    };
                    &&& final(state).clients.spec_slots() == old(
                        state,
                    ).clients.spec_slots().update(
                        id.0 as int,
                        Some(
                            Client {
                                status: crate::clients::ClientStatus {
                                    p2p_count: newcount,
                                    ..sender.status
                                },
                                ..sender
                            },
                        ),
                    )
                    &&& final(state).cars == old(state).cars
                    &&& final(state).options == old(state).options
                    &&& is_broadcast(
                        r@,
                        final(state).clients.spec_slots(),
                        sender.car_id as int,
                        crate::packets::server::TestServerView::P2PCount(
                            crate::packets::server::P2PCount {
                                car_id: sender.car_id as u8,
                                p2p_count: newcount,
                                active: p.active,
                            },
                        ),
                    )
                }
            },
            TestClient::CarlistRequest(creq) => {
                &&& *final(state) == *old(state)
                &&& r@.len() == 1
                &&& (r@[0] matches Outbound::Tcp(t, pk) && t == id && (pk@
                    matches crate::packets::server::TestServerView::CarList(lv)
                    && lv.from_session_id == creq.index && lv.cars.len() == (
                if creq.index as int <= old(state).cars.spec_cars().len() {
                    old(state).cars.spec_cars().len() - creq.index as int
                } else {
                    0int
                }) && (forall|k: int|
                    0 <= k < lv.cars.len() ==> #[trigger] lv.cars[k] == Cars::spec_car_row(
                        old(state).cars.spec_cars()[creq.index as int + k],
                        creq.index as int + k,
                    ))))
            },
            TestClient::Disconnect(_) => {
                let sender = old(state).clients.spec_slots()[id.0 as int]->Some_0;
                &&& final(state).clients.spec_slots() == old(state).clients.spec_slots().update(
                    id.0 as int,
                    Option::<Client>::None,
                )
                &&& final(state).cars.spec_cars() == old(state).cars.spec_cars().update(
                    sender.car_id as int,
                    crate::cars::Car {
                        driver: None,
                        ..old(state).cars.spec_cars()[sender.car_id as int]
                    },
                )
                &&& final(state).options == old(state).options
                &&& is_broadcast(
                    r@,
                    final(state).clients.spec_slots(),
                    sender.car_id as int,
                    crate::packets::server::TestServerView::ClientDisconnect(
                        crate::packets::server::ClientDisconnect { car_id: sender.car_id as u8 },
                    ),
                )
            },
            TestClient::Checksum(_) => *final(state) == *old(state) && r@.len() == 0,
            TestClient::Chat(chat) => {
                let sender = old(state).clients.spec_slots()[id.0 as int]->Some_0;
                &&& *final(state) == *old(state)
                &&& is_broadcast(
                    r@,
                    final(state).clients.spec_slots(),
                    sender.car_id as int,
                    crate::packets::server::TestServerView::Chat(
                        crate::packets::server::ChatView {
                            car_id: sender.car_id as u8,
                            msg: chat.msg@,
                        },
                    ),
                )
            },
            TestClient::LapCompleted(l) => {
                let sender = old(state).clients.spec_slots()[id.0 as int]->Some_0;
                let newlaps = if sender.status.laps < 0xFFFFFFFFu32 {
                    (sender.status.laps + 1) as u32
                } else {
                    sender.status.laps
                };
                let row = crate::packets::server::Lap {
                    car_id: sender.car_id as u8,
                    laptime: l.laptime,
                    lap_count: (sender.status.laps % 0x10000) as u16,
                    has_completed_last_lap: sender.status.laps >= old(
                        state,
                    ).options.sessions.spec_current_session().laps,
                };
                &&& final(state).clients.spec_slots() == old(
                    state,
                ).clients.spec_slots().update(
                    id.0 as int,
                    Some(
                        Client {
                            status: crate::clients::ClientStatus {
                                laps: newlaps,
                                last_lap_timestamp: now_ms,
                                ..sender.status
                            },
                            ..sender
                        },
                    ),
                )
                &&& final(state).cars == old(state).cars
                &&& final(state).options == (crate::options::ServerOptions {
                    grip_level: old(state).options.grip_level.spec_after_lap(),
                    laps: final(state).options.laps,
                    ..old(state).options
                })
                &&& final(state).options.laps.laps@ == old(state).options.laps.laps@.push(row)
                &&& is_broadcast(
                    r@,
                    final(state).clients.spec_slots(),
                    sender.car_id as int,
                    crate::packets::server::TestServerView::LapCompleted(
                        crate::packets::server::LapCompletedView {
                            car_id: sender.car_id as u8,
                            laptime: l.laptime,
                            cuts: l.cuts,
                            laps: crate::vecs::views_of(final(state).options.laps.laps@),
                            grip_level: grip_bits,
                        },
                    ),
                )
            },
            TestClient::ChangeTireCompound(t) => {
                let sender = old(state).clients.spec_slots()[id.0 as int]->Some_0;
                if t.tire_compound@.len() <= 255 {
                    &&& final(state).clients.spec_slots()[id.0 as int] matches Some(c) && c
                        == (Client {
                        status: crate::clients::ClientStatus {
                            current_tyre_compound: c.status.current_tyre_compound,
                            ..sender.status
                        },
                        ..sender
                    }) && c.status.current_tyre_compound@ == t.tire_compound@
                    &&& (forall|j: int|
                        0 <= j < old(state).clients.spec_slots().len() && j != id.0
                            ==> final(state).clients.spec_slots()[j] == old(
                            state,
                        ).clients.spec_slots()[j])
                    &&& final(state).cars == old(state).cars
                    &&& final(state).options == old(state).options
                    &&& is_broadcast(
                        r@,
                        final(state).clients.spec_slots(),
                        sender.car_id as int,
                        crate::packets::server::TestServerView::ChangeTireCompound(
                            crate::packets::server::ChangeTireCompoundView {
                                car_id: sender.car_id as u8,
                                tire_compound: t.tire_compound@,
                            },
                        ),
                    )
                } else {
                    *final(state) == *old(state) && r@.len() == 0
                }
            },
            TestClient::DamageUpdate(d) => {
                let sender = old(state).clients.spec_slots()[id.0 as int]->Some_0;
                &&& final(state).clients.spec_slots() == old(state).clients.spec_slots().update(
                    id.0 as int,
                    Some(
                        Client {
                            status: crate::clients::ClientStatus {
                                damage: d.damage,
                                damage1: d.damage1,
                                damage2: d.damage2,
                                damage3: d.damage3,
                                damage4: d.damage4,
                                ..sender.status
                            },
                            ..sender
                        },
                    ),
                )
                &&& final(state).cars == old(state).cars
                &&& final(state).options == old(state).options
                &&& is_broadcast(
                    r@,
                    final(state).clients.spec_slots(),
                    sender.car_id as int,
                    crate::packets::server::TestServerView::DamageUpdate(
                        crate::packets::server::DamageUpdate {
                            car_id: sender.car_id as u8,
                            damage: d.damage,
                            damage1: d.damage1,
                            damage2: d.damage2,
                            damage3: d.damage3,
                            damage4: d.damage4,
                        },
                    ),
                )
            },
            _ => *final(state) == *old(state) && r@.len() == 0,
        }),
{
    let sender_car: usize;
    let sender_laps: u32;
    match state.clients.get(id) {
        Some(c) => {
            sender_car = c.car_id;
            sender_laps = c.status.laps;
        },
        None => {
            return Vec::new();
        },
    }
    let mut out: Vec<Outbound> = Vec::new();
    match packet {
        TestClient::P2PCount(p) => {
            if p.count == -1 {
                let current = match state.clients.get(id) {
                    Some(c) => c.status.p2p_count,
                    None => 0,
                };
                out.push(
                    Outbound::Tcp(
                        id,
                        TestServer::P2PCount(
                            crate::packets::server::P2PCount {
                                car_id: sender_car as u8,
                                p2p_count: current,
                                active: false,
                            },
                        ),
                    ),
                );
            } else {
                match &mut state.clients.slots[id.0] {
                    Some(c) => {
                        c.p2p_count_dec();
                    },
                    None => {},
                }
                proof {
                    lemma_wf_after_slot_update(*old(state), *state, id.0 as int);
                    assert(state.clients.spec_slots() =~= old(state).clients.spec_slots().update(
                        id.0 as int,
                        state.clients.spec_slots()[id.0 as int],
                    ));
                }
                let current = match state.clients.get(id) {
                    Some(c) => c.status.p2p_count,
                    None => 0,
                };
                let ghost pv = crate::packets::server::TestServerView::P2PCount(
                    crate::packets::server::P2PCount {
                        car_id: sender_car as u8,
                        p2p_count: current,
                        active: p.active,
                    },
                );
                let peers = peers_except(&state.clients, sender_car);
                let ghost pids = spec_peer_ids(
                    state.clients.spec_slots(),
                    sender_car as int,
                    state.clients.spec_slots().len() as int,
                );
                let mut k: usize = 0;
                while k < peers.len()
                    invariant
                        out@.len() == k,
                        k <= peers@.len(),
                        peers@.map_values(|x: usize| x as int) == pids,
                        pv == crate::packets::server::TestServerView::P2PCount(
                            crate::packets::server::P2PCount {
                                car_id: sender_car as u8,
                                p2p_count: current,
                                active: p.active,
                            },
                        ),
                        forall|q: int|
                            0 <= q < k ==> ((#[trigger] out@[q]) matches Outbound::Tcp(t, pk)
                                && t.0 == pids[q] && pk@ == pv),
                    decreases peers@.len() - k,
                {
                    out.push(
                        Outbound::Tcp(
                            ClientId(peers[k]),
                            TestServer::P2PCount(
                                crate::packets::server::P2PCount {
                                    car_id: sender_car as u8,
                                    p2p_count: current,
                                    active: p.active,
                                },
                            ),
                        ),
                    );
                    assert(peers@.map_values(|x: usize| x as int)[k as int] == peers@[k as int]
                        as int);
                    k = k + 1;
                }
                assert(pids.len() == peers@.map_values(|x: usize| x as int).len());
            }
        },
        TestClient::CarlistRequest(creq) => {
            out.push(Outbound::Tcp(id, TestServer::CarList(state.cars.to_packet(creq.index))));
        },
        TestClient::Disconnect(_) => {
            let removed = state.clients.remove(id);
            match removed {
                Some(gone) => {
                    state.cars.remove_car(gone.car_id);
                    proof {
                        let s = state.clients.spec_slots();
                        let pre = old(state).clients.spec_slots();
                        let ncars = state.cars.spec_cars().len() as int;
                        assert forall|j: int| 0 <= j < s.len() implies (match #[trigger] s[j] {
                            Some(c) => c.wf() && c.car_id < ncars,
                            None => true,
                        }) by {
                            if j != id.0 {
                                assert(s[j] == pre[j]);
                            }
                        }
                        assert forall|a: int, b: int| 0 <= a < b < s.len() implies (match (
                        #[trigger] s[a], #[trigger] s[b]) {
                            (Some(x), Some(y)) => x.car_id != y.car_id && x.guid@ != y.guid@,
                            _ => true,
                        }) by {
                            if a != id.0 {
                                assert(s[a] == pre[a]);
                            }
                            if b != id.0 {
                                assert(s[b] == pre[b]);
                            }
                        }
                    }
                    let ghost pv = crate::packets::server::TestServerView::ClientDisconnect(
                        crate::packets::server::ClientDisconnect { car_id: gone.car_id as u8 },
                    );
                    let peers = peers_except(&state.clients, gone.car_id);
                    let ghost pids = spec_peer_ids(
                        state.clients.spec_slots(),
                        gone.car_id as int,
                        state.clients.spec_slots().len() as int,
                    );
                    let mut k: usize = 0;
                    while k < peers.len()
                        invariant
                            out@.len() == k,
                            k <= peers@.len(),
                            peers@.map_values(|x: usize| x as int) == pids,
                            pv == crate::packets::server::TestServerView::ClientDisconnect(
                                crate::packets::server::ClientDisconnect {
                                    car_id: gone.car_id as u8,
                                },
                            ),
                            forall|q: int|
                                0 <= q < k ==> ((#[trigger] out@[q]) matches Outbound::Tcp(t, pk)
                                    && t.0 == pids[q] && pk@ == pv),
                        decreases peers@.len() - k,
                    {
                        out.push(
                            Outbound::Tcp(
                                ClientId(peers[k]),
                                TestServer::ClientDisconnect(
                                    crate::packets::server::ClientDisconnect {
                                        car_id: gone.car_id as u8,
                                    },
                                ),
                            ),
                        );
                        assert(peers@.map_values(|x: usize| x as int)[k as int] == peers@[k as int]
                            as int);
                        k = k + 1;
                    }
                    assert(pids.len() == peers@.map_values(|x: usize| x as int).len());
                },
                None => {},
            }
        },
        TestClient::Checksum(_) => {},
        TestClient::Chat(chat) => {
            let ghost pv = crate::packets::server::TestServerView::Chat(
                crate::packets::server::ChatView { car_id: sender_car as u8, msg: chat.msg@ },
            );
            let peers = peers_except(&state.clients, sender_car);
            let ghost pids = spec_peer_ids(
                state.clients.spec_slots(),
                sender_car as int,
                state.clients.spec_slots().len() as int,
            );
            let mut k: usize = 0;
            while k < peers.len()
                invariant
                    out@.len() == k,
                    k <= peers@.len(),
                    peers@.map_values(|x: usize| x as int) == pids,
                    pv == crate::packets::server::TestServerView::Chat(
                        crate::packets::server::ChatView {
                            car_id: sender_car as u8,
                            msg: chat.msg@,
                        },
                    ),
                    forall|q: int|
                        0 <= q < k ==> ((#[trigger] out@[q]) matches Outbound::Tcp(t, pk) && t.0
                            == pids[q] && pk@ == pv),
                decreases peers@.len() - k,
            {
                let pkt = crate::packets::server::Chat {
                    car_id: sender_car as u8,
                    msg: WideString(clone_wide(&chat.msg)),
                };
                proof {
                    assert(pkt@ =~= crate::packets::server::ChatView {
                        car_id: sender_car as u8,
                        msg: chat.msg@,
                    });
                }
                out.push(Outbound::Tcp(ClientId(peers[k]), TestServer::Chat(pkt)));
                assert(peers@.map_values(|x: usize| x as int)[k as int] == peers@[k as int] as int);
                k = k + 1;
            }
            assert(pids.len() == peers@.map_values(|x: usize| x as int).len());
        },
        TestClient::LapCompleted(l) => {
            match &mut state.clients.slots[id.0] {
                Some(c) => {
                    c.status.last_lap_timestamp = now_ms;
                    c.add_lap();
                },
                None => {},
            }
            proof {
                lemma_wf_after_slot_update(*old(state), *state, id.0 as int);
                assert(state.clients.spec_slots() =~= old(state).clients.spec_slots().update(
                    id.0 as int,
                    state.clients.spec_slots()[id.0 as int],
                ));
            }
            state.options.grip_level.on_lap_complete();
            let has_completed_last_lap = sender_laps
                >= state.options.sessions.get_current_session().laps as u32;
            let row = crate::packets::server::Lap {
                car_id: sender_car as u8,
                laptime: l.laptime,
                lap_count: (sender_laps % 0x10000) as u16,
                has_completed_last_lap,
            };
            state.options.laps.add_lap(row);
            let ghost ledger0 = state.options.laps.laps@;
            let ghost pv = crate::packets::server::TestServerView::LapCompleted(
                crate::packets::server::LapCompletedView {
                    car_id: sender_car as u8,
                    laptime: l.laptime,
                    cuts: l.cuts,
                    laps: crate::vecs::views_of(ledger0),
                    grip_level: grip_bits,
                },
            );
            let peers = peers_except(&state.clients, sender_car);
            let ghost pids = spec_peer_ids(
                state.clients.spec_slots(),
                sender_car as int,
                state.clients.spec_slots().len() as int,
            );
            let mut k: usize = 0;
            while k < peers.len()
                invariant
                    k <= peers@.len(),
                    out@.len() == k,
                    peers@.map_values(|x: usize| x as int) == pids,
                    state.options.laps.laps@ == ledger0,
                    pv == crate::packets::server::TestServerView::LapCompleted(
                        crate::packets::server::LapCompletedView {
                            car_id: sender_car as u8,
                            laptime: l.laptime,
                            cuts: l.cuts,
                            laps: crate::vecs::views_of(ledger0),
                            grip_level: grip_bits,
                        },
                    ),
                    forall|q: int|
                        0 <= q < k ==> ((#[trigger] out@[q]) matches Outbound::Tcp(t, pk) && t.0
                            == pids[q] && pk@ == pv),
                decreases peers@.len() - k,
            {
                let pkt = crate::packets::server::LapCompleted {
                    car_id: sender_car as u8,
                    laptime: l.laptime,
                    cuts: l.cuts,
                    laps: state.options.laps.laps(),
                    grip_level: grip_bits,
                };
                proof {
                    assert(crate::vecs::views_of(pkt.laps@) =~= crate::vecs::views_of(ledger0));
                    assert(pkt@ =~= crate::packets::server::LapCompletedView {
                        car_id: sender_car as u8,
                        laptime: l.laptime,
                        cuts: l.cuts,
                        laps: crate::vecs::views_of(ledger0),
                        grip_level: grip_bits,
                    });
                }
                out.push(Outbound::Tcp(ClientId(peers[k]), TestServer::LapCompleted(pkt)));
                assert(peers@.map_values(|x: usize| x as int)[k as int] == peers@[k as int] as int);
                k = k + 1;
            }
            assert(pids.len() == peers@.map_values(|x: usize| x as int).len());
        },
        TestClient::ChangeTireCompound(t) => {
            if t.tire_compound.0.len() <= 255 {
                match &mut state.clients.slots[id.0] {
                    Some(c) => {
                        c.status.current_tyre_compound = clone_bytes(&t.tire_compound.0);
                    },
                    None => {},
                }
                proof {
                    lemma_wf_after_slot_update(*old(state), *state, id.0 as int);
                }
                let ghost pv = crate::packets::server::TestServerView::ChangeTireCompound(
                    crate::packets::server::ChangeTireCompoundView {
                        car_id: sender_car as u8,
                        tire_compound: t.tire_compound@,
                    },
                );
                let peers = peers_except(&state.clients, sender_car);
                let ghost pids = spec_peer_ids(
                    state.clients.spec_slots(),
                    sender_car as int,
                    state.clients.spec_slots().len() as int,
                );
                let mut k: usize = 0;
                while k < peers.len()
                    invariant
                        out@.len() == k,
                        k <= peers@.len(),
                        peers@.map_values(|x: usize| x as int) == pids,
                        pv == crate::packets::server::TestServerView::ChangeTireCompound(
                            crate::packets::server::ChangeTireCompoundView {
                                car_id: sender_car as u8,
                                tire_compound: t.tire_compound@,
                            },
                        ),
                        forall|q: int|
                            0 <= q < k ==> ((#[trigger] out@[q]) matches Outbound::Tcp(t2, pk)
                                && t2.0 == pids[q] && pk@ == pv),
                    decreases peers@.len() - k,
                {
                    let pkt = crate::packets::server::ChangeTireCompound {
                        car_id: sender_car as u8,
                        tire_compound: ByteString(clone_bytes(&t.tire_compound.0)),
                    };
                    proof {
                        assert(pkt@ =~= crate::packets::server::ChangeTireCompoundView {
                            car_id: sender_car as u8,
                            tire_compound: t.tire_compound@,
                        });
                    }
                    out.push(Outbound::Tcp(ClientId(peers[k]), TestServer::ChangeTireCompound(pkt)));
                    assert(peers@.map_values(|x: usize| x as int)[k as int] == peers@[k as int]
                        as int);
                    k = k + 1;
                }
                assert(pids.len() == peers@.map_values(|x: usize| x as int).len());
            }
        },
        TestClient::DamageUpdate(d) => {
            match &mut state.clients.slots[id.0] {
                Some(c) => {
                    c.update_damage(d);
                },
                None => {},
            }
            proof {
                lemma_wf_after_slot_update(*old(state), *state, id.0 as int);
                assert(state.clients.spec_slots() =~= old(state).clients.spec_slots().update(
                    id.0 as int,
                    state.clients.spec_slots()[id.0 as int],
                ));
            }
            let ghost pv = crate::packets::server::TestServerView::DamageUpdate(
                crate::packets::server::DamageUpdate {
                    car_id: sender_car as u8,
                    damage: d.damage,
                    damage1: d.damage1,
                    damage2: d.damage2,
                    damage3: d.damage3,
                    damage4: d.damage4,
                },
            );
            let peers = peers_except(&state.clients, sender_car);
            let ghost pids = spec_peer_ids(
                state.clients.spec_slots(),
                sender_car as int,
                state.clients.spec_slots().len() as int,
            );
            let mut k: usize = 0;
            while k < peers.len()
                invariant
                    out@.len() == k,
                    k <= peers@.len(),
                    peers@.map_values(|x: usize| x as int) == pids,
                    pv == crate::packets::server::TestServerView::DamageUpdate(
                        crate::packets::server::DamageUpdate {
                            car_id: sender_car as u8,
                            damage: d.damage,
                            damage1: d.damage1,
                            damage2: d.damage2,
                            damage3: d.damage3,
                            damage4: d.damage4,
                        },
                    ),
                    forall|q: int|
                        0 <= q < k ==> ((#[trigger] out@[q]) matches Outbound::Tcp(t, pk) && t.0
                            == pids[q] && pk@ == pv),
                decreases peers@.len() - k,
            {
                out.push(
                    Outbound::Tcp(
                        ClientId(peers[k]),
                        TestServer::DamageUpdate(
                            crate::packets::server::DamageUpdate {
                                car_id: sender_car as u8,
                                damage: d.damage,
                                damage1: d.damage1,
                                damage2: d.damage2,
                                damage3: d.damage3,
                                damage4: d.damage4,
                            },
                        ),
                    ),
                );
                assert(peers@.map_values(|x: usize| x as int)[k as int] == peers@[k as int] as int);
                k = k + 1;
            }
            assert(pids.len() == peers@.map_values(|x: usize| x as int).len());
        },
        _ => {},
    }
    out
}

/// Mutating one client in place preserves the registry's invariants:
/// the car slot and GUID of every client are untouched.
proof fn lemma_wf_after_slot_update(pre: ServerState, post: ServerState, i: int)
    requires
        pre.wf(),
        post.cars == pre.cars,
        post.options == pre.options,
        post.config == pre.config,
        post.clients.spec_slots().len() == pre.clients.spec_slots().len(),
        forall|j: int|
            0 <= j < pre.clients.spec_slots().len() && j != i
                ==> post.clients.spec_slots()[j] == pre.clients.spec_slots()[j],
        (match (pre.clients.spec_slots()[i], post.clients.spec_slots()[i]) {
            (Some(a), Some(b)) => a.car_id == b.car_id && a.guid@ == b.guid@ && b.wf(),
            (_, None) => true,
            (None, Some(_)) => false,
        }) || !(0 <= i < pre.clients.spec_slots().len()),
    ensures
        post.wf(),
{
    let n = pre.cars.spec_cars().len() as int;
    assert forall|j: int|
        0 <= j < post.clients.spec_slots().len() implies (
    match #[trigger] post.clients.spec_slots()[j] {
        Some(c) => c.wf() && c.car_id < n,
        None => true,
    }) by {
        if j != i {
            assert(post.clients.spec_slots()[j] == pre.clients.spec_slots()[j]);
        }
    }
    assert forall|a: int, b: int|
        0 <= a < b < post.clients.spec_slots().len() implies (
    match (#[trigger] post.clients.spec_slots()[a], #[trigger] post.clients.spec_slots()[b]) {
        (Some(x), Some(y)) => x.car_id != y.car_id && x.guid@ != y.guid@,
        _ => true,
    }) by {
        if a != i {
            assert(post.clients.spec_slots()[a] == pre.clients.spec_slots()[a]);
        }
        if b != i {
            assert(post.clients.spec_slots()[b] == pre.clients.spec_slots()[b]);
        }
    }
}

/// Copies a wide string's characters.
pub fn clone_wide(w: &WideString) -> (r: Vec<u32>)
    ensures
        r@ == w@,
{
    let mut out: Vec<u32> = Vec::new();
    let mut i: usize = 0;
    while i < w.0.len()
        invariant
            i <= w.0@.len(),
            out@ == w.0@.take(i as int),
        decreases w.0@.len() - i,
    {
        out.push(w.0[i]);
        assert(out@ =~= w.0@.take(i as int + 1));
        i = i + 1;
    }
    assert(w.0@.take(w.0@.len() as int) =~= w.0@);
    out
}

/// Two lap rows appended for the same client within one session carry
/// strictly increasing lap numbers: a row holds the client's lap counter
/// at append time, the counter advances by one with the row, and within
/// a session nothing lowers it.
pub proof fn lemma_lap_rows_monotonic(
    laps_at_first: u32,
    laps_at_second: u32,
    row_first: crate::packets::server::Lap,
    row_second: crate::packets::server::Lap,
)
    requires
        row_first.lap_count == laps_at_first % 0x10000,
        row_second.lap_count == laps_at_second % 0x10000,
        laps_at_first < laps_at_second <= 0xFFFF,
    ensures
        row_first.lap_count < row_second.lap_count,
{
}

/// The mathematical view of an [`Outbound`] message.
#[verifier::ext_equal]
pub enum OutboundView {
    Tcp(ClientId, crate::packets::server::TestServerView),
    Udp(ClientId, crate::packets::server::TestServerView),
    Datagram(u128, u16, crate::packets::server::TestServerView),
}

impl View for Outbound {
    type V = OutboundView;

    open spec fn view(&self) -> OutboundView {
        match self {
            Outbound::Tcp(t, p) => OutboundView::Tcp(*t, p@),
            Outbound::Udp(t, p) => OutboundView::Udp(*t, p@),
            Outbound::Datagram(a, port, p) => OutboundView::Datagram(*a, *port, p@),
        }
    }
}

/// How long ago the client last answered a ping, clamped at zero.
pub open spec fn pong_silence(c: Client, now_ms: u64) -> int {
    if now_ms >= c.status.last_pong_time {
        now_ms - c.status.last_pong_time
    } else {
        0
    }
}

/// A client whose pong silence exceeds the ten-second window.
pub open spec fn is_silent(c: Client, now_ms: u64) -> bool {
    pong_silence(c, now_ms) > 10000
}

/// Whether a second has passed since the client was last pinged.
pub open spec fn ping_due(c: Client, now_ms: u64) -> bool {
    now_ms >= c.status.last_ping_time && now_ms - c.status.last_ping_time >= 1000
}

/// The position row the fan-out carries for one client.
pub open spec fn spec_position_row(c: Client) -> crate::packets::server::PositionUpdate {
    crate::packets::server::PositionUpdate {
        car_id: c.car_id as u8,
        pak_sequence_id: c.status.pak_sequence_id,
        timestamp: c.status.time_stamp,
        pos: c.status.pos,
        rotation: c.status.rotation,
        velocity: c.status.velocity,
        tyre_angular_speed: c.status.tyre_angular_speed,
        tyre_angular_speed1: c.status.tyre_angular_speed1,
        tyre_angular_speed2: c.status.tyre_angular_speed2,
        tyre_angular_speed3: c.status.tyre_angular_speed3,
        streer_angle: c.status.steer_angle,
        wheel_angle: c.status.wheel_angle,
        engine_rpm: c.status.engine_rpm,
        gear: c.status.gear,
        status: c.status.status_bytes,
    }
}

/// One position row per active client among the first `n`, in slot
/// order.
pub open spec fn spec_positions(slots: Seq<Option<Client>>, n: int) -> Seq<
    crate::packets::server::PositionUpdate,
>
    decreases n,
{
    if n <= 0 {
        Seq::empty()
    } else {
        let pre = spec_positions(slots, n - 1);
        match slots[n - 1] {
            Some(c) => pre.push(spec_position_row(c)),
            None => pre,
        }
    }
}

/// The balance-of-performance row for one client.
pub open spec fn spec_bop_row(c: Client) -> crate::packets::server::Bop {
    crate::packets::server::Bop {
        car_id: c.car_id as u8,
        ballast: c.status.ballast_kg,
        restrictor: c.status.restrictor,
    }
}

/// One balance-of-performance row per active client among the first
/// `n`, in slot order.
pub open spec fn spec_bops(slots: Seq<Option<Client>>, n: int) -> Seq<
    crate::packets::server::Bop,
>
    decreases n,
{
    if n <= 0 {
        Seq::empty()
    } else {
        let pre = spec_bops(slots, n - 1);
        match slots[n - 1] {
            Some(c) => pre.push(spec_bop_row(c)),
            None => pre,
        }
    }
}

/// One position row per active client, in slot order.
pub fn build_positions(clients: &Clients) -> (r: Vec<crate::packets::server::PositionUpdate>)
    ensures
        r@ == spec_positions(clients.spec_slots(), clients.spec_slots().len() as int),
{
    let n = clients.slot_count();
    let mut out: Vec<crate::packets::server::PositionUpdate> = Vec::new();
    let mut i: usize = 0;
    while i < n
        invariant
            i <= n == clients.spec_slots().len(),
            out@ == spec_positions(clients.spec_slots(), i as int),
        decreases n - i,
    {
        match clients.get(ClientId(i)) {
            Some(c) => {
                out.push(
                    crate::packets::server::PositionUpdate {
                        car_id: c.car_id as u8,
                        pak_sequence_id: c.status.pak_sequence_id,
                        timestamp: c.status.time_stamp,
                        pos: c.status.pos,
                        rotation: c.status.rotation,
                        velocity: c.status.velocity,
                        tyre_angular_speed: c.status.tyre_angular_speed,
                        tyre_angular_speed1: c.status.tyre_angular_speed1,
                        tyre_angular_speed2: c.status.tyre_angular_speed2,
                        tyre_angular_speed3: c.status.tyre_angular_speed3,
                        streer_angle: c.status.steer_angle,
                        wheel_angle: c.status.wheel_angle,
                        engine_rpm: c.status.engine_rpm,
                        gear: c.status.gear,
                        status: c.status.status_bytes,
                    },
                );
            },
            None => {},
        }
        i = i + 1;
    }
    out
}

/// One balance-of-performance row per active client, in slot order.
pub fn build_bops(clients: &Clients) -> (r: Vec<crate::packets::server::Bop>)
    ensures
        r@ == spec_bops(clients.spec_slots(), clients.spec_slots().len() as int),
{
    let n = clients.slot_count();
    let mut out: Vec<crate::packets::server::Bop> = Vec::new();
    let mut i: usize = 0;
    while i < n
        invariant
            i <= n == clients.spec_slots().len(),
            out@ == spec_bops(clients.spec_slots(), i as int),
        decreases n - i,
    {
        match clients.get(ClientId(i)) {
            Some(c) => {
                out.push(
                    crate::packets::server::Bop {
                        car_id: c.car_id as u8,
                        ballast: c.status.ballast_kg,
                        restrictor: c.status.restrictor,
                    },
                );
            },
            None => {},
        }
        i = i + 1;
    }
    out
}

/// The middle of the first-update burst: for every peer — every active
/// client whose car is not the newcomer's — its tyre compound, its
/// mandatory-pit state and its push-to-pass count, in slot order, all
/// addressed to the newcomer.
pub open spec fn spec_burst_middle(
    slots: Seq<Option<Client>>,
    my_car: int,
    target: ClientId,
    n: int,
) -> Seq<OutboundView>
    decreases n,
{
    if n <= 0 {
        Seq::empty()
    } else {
        let pre = spec_burst_middle(slots, my_car, target, n - 1);
        match slots[n - 1] {
            Some(c) => {
                if c.car_id != my_car {
                    pre + seq![
                        OutboundView::Tcp(
                            target,
                            crate::packets::server::TestServerView::ChangeTireCompound(
                                crate::packets::server::ChangeTireCompoundView {
                                    car_id: c.car_id as u8,
                                    tire_compound: c.status.current_tyre_compound@,
                                },
                            ),
                        ),
                        OutboundView::Tcp(
                            target,
                            crate::packets::server::TestServerView::MandatoryPit(
                                crate::packets::server::MandatoryPit {
                                    car_id: c.car_id as u8,
                                    mandatory_pit: c.status.mandatory_pit,
                                },
                            ),
                        ),
                        OutboundView::Tcp(
                            target,
                            crate::packets::server::TestServerView::P2PCount(
                                crate::packets::server::P2PCount {
                                    car_id: c.car_id as u8,
                                    p2p_count: c.status.p2p_count,
                                    active: false,
                                },
                            ),
                        ),
                    ]
                } else {
                    pre
                }
            },
            None => pre,
        }
    }
}

/// The whole first-update burst for the client at slot `i`: the position
/// fan-out, the welcome text, the weather, the per-peer middle, and the
/// balance of performance.
pub open spec fn spec_burst(s: ServerState, i: int, ts: u32) -> Seq<OutboundView> {
    let slots = s.clients.spec_slots();
    let pre = slots[i]->Some_0;
    let w = s.options.current_weather;
    seq![
        OutboundView::Udp(
            ClientId(i as usize),
            crate::packets::server::TestServerView::MegaPacket(
                crate::packets::server::MegaPacketView {
                    timestamp: ts,
                    ping: (pre.status.ping % 0x10000) as u16,
                    position_updates: spec_positions(slots, slots.len() as int),
                },
            ),
        ),
        OutboundView::Tcp(
            ClientId(i as usize),
            crate::packets::server::TestServerView::WelcomeMessage(
                crate::packets::server::WelcomeMessageView {
                    unknown: 0u8,
                    welcome_msg: crate::weather::widen_bytes(s.config.server.welcome_message@),
                },
            ),
        ),
        OutboundView::Tcp(
            ClientId(i as usize),
            crate::packets::server::TestServerView::Weather(
                crate::packets::server::WeatherView {
                    ambient: crate::weather::clamp_byte(w.ambient.temp / 1000),
                    road: crate::weather::clamp_byte(w.road.temp / 1000),
                    name: crate::weather::widen_bytes(w.graphics@),
                    wind_speed: w.wind.speed as i16,
                    wind_direction: w.wind.direction as i16,
                },
            ),
        ),
    ] + spec_burst_middle(slots, pre.car_id as int, ClientId(i as usize), slots.len() as int)
        + seq![
        OutboundView::Tcp(
            ClientId(i as usize),
            crate::packets::server::TestServerView::Bops(
                crate::packets::server::BopsView {
                    cars: spec_bops(slots, slots.len() as int),
                },
            ),
        ),
    ]
}

/// Handles one datagram from the given source address.
///
/// The first motion update of a client is answered with the one-shot
/// burst — a position fan-out first, then the welcome text, the weather,
/// each peer's tyre compound, pit and push-to-pass state, and last the
/// balance of performance — and every motion update overwrites the
/// sender's snapshot.  An address binding records the
/// datagram return address and is acknowledged.  A lobby probe is
/// answered to the raw source address.  A pong updates the sender's
/// ping, offset and liveness clock and is not answered.  A session
/// request for a kind other than the current one is answered with the
/// current session.
#[verifier::rlimit(100)]
#[verifier::spinoff_prover]
pub fn handle_udp_message(
    state: &mut ServerState,
    src_ip: u128,
    src_port: u16,
    packet: &TestClient,
    now_ms: u64,
    grip_bits: F32,
) -> (r: Vec<Outbound>)
    requires
        old(state).wf(),
        old(state).start_ms <= now_ms < 0x8000000000000000,
    ensures
        final(state).wf(),
        final(state).clients.spec_slots().len() == old(state).clients.spec_slots().len(),
        final(state).cars == old(state).cars,
        final(state).options == old(state).options,
        final(state).config == old(state).config,
        (match *packet {
            TestClient::CarUpdate(u) => (match crate::clients::spec_first_ip_match(
                old(state).clients.spec_slots(),
                src_ip,
                old(state).clients.spec_slots().len() as int,
            ) {
                Some(i) => {
                    let pre = old(state).clients.spec_slots()[i]->Some_0;
                    &&& final(state).clients.spec_slots() == old(
                        state,
                    ).clients.spec_slots().update(
                        i,
                        Some(
                            Client {
                                status: pre.status.spec_updated(u),
                                has_sent_first_update: true,
                                ..pre
                            },
                        ),
                    )
                    &&& (pre.has_sent_first_update ==> r@.len() == 0)
                    &&& (!pre.has_sent_first_update ==> crate::vecs::views_of(r@) == spec_burst(
                        *old(state),
                        i,
                        ((now_ms - old(state).start_ms) % 0x100000000) as u32,
                    ))
                },
                None => r@.len() == 0 && *final(state) == *old(state),
            }),
            TestClient::LobbyCheckMessage(_) => {
                &&& *final(state) == *old(state)
                &&& r@.len() == 1
                &&& (r@[0] matches Outbound::Datagram(a, p, pkt) && a == src_ip && p == src_port
                    && pkt@ == crate::packets::server::TestServerView::LobbyCheckMessage(
                    crate::packets::server::LobbyCheckMessage {
                        http_port: old(state).config.server.http_port,
                    },
                ))
            },
            TestClient::Pong(p) => (match crate::clients::spec_first_ip_match(
                old(state).clients.spec_slots(),
                src_ip,
                old(state).clients.spec_slots().len() as int,
            ) {
                Some(i) => {
                    let pre = old(state).clients.spec_slots()[i]->Some_0;
                    let ts = ((now_ms - old(state).start_ms) % 0x100000000) as u32;
                    let ping = if ts >= p.ping {
                        (ts - p.ping) as u32
                    } else {
                        0u32
                    };
                    let toff = if ping / 2 <= 0xFFFFFFFFu32 - p.time_offset {
                        (ping / 2 + p.time_offset) as u32
                    } else {
                        0xFFFFFFFFu32
                    };
                    &&& final(state).clients.spec_slots() == old(
                        state,
                    ).clients.spec_slots().update(
                        i,
                        Some(
                            Client {
                                status: crate::clients::ClientStatus {
                                    ping,
                                    time_offset: toff,
                                    last_pong_time: now_ms,
                                    ..pre.status
                                },
                                ..pre
                            },
                        ),
                    )
                    &&& r@.len() == 0
                },
                None => r@.len() == 0 && *final(state) == *old(state),
            }),
            TestClient::UpdateUpdAddress(_) => (match crate::clients::spec_first_ip_match(
                old(state).clients.spec_slots(),
                src_ip,
                old(state).clients.spec_slots().len() as int,
            ) {
                Some(i) => {
                    let pre = old(state).clients.spec_slots()[i]->Some_0;
                    &&& final(state).clients.spec_slots() == old(
                        state,
                    ).clients.spec_slots().update(
                        i,
                        Some(Client { udp: Some((src_ip, src_port)), ..pre }),
                    )
                    &&& r@.len() == 1
                    &&& (r@[0] matches Outbound::Udp(t, pkt) && t.0 == i && pkt@
                        == crate::packets::server::TestServerView::UpdateUpdAddress(
                        crate::packets::server::UpdateUpdAddress {  },
                    ))
                },
                None => r@.len() == 0 && *final(state) == *old(state),
            }),
            TestClient::SessionRequest(rq) => {
                let cur = old(state).options.sessions.spec_current_session();
                &&& *final(state) == *old(state)
                &&& (match crate::clients::spec_first_ip_match(
                    old(state).clients.spec_slots(),
                    src_ip,
                    old(state).clients.spec_slots().len() as int,
                ) {
                    Some(i) => {
                        if rq.session_type != cur.session_type {
                            r@.len() == 1 && (r@[0] matches Outbound::Tcp(t, pkt) && t.0 == i && (
                            pkt@ matches crate::packets::server::TestServerView::UpdateSession(uv)
                                && uv.session_name == cur.name@ && uv.session_index == old(
                                state,
                            ).options.sessions.spec_current() as u8 && uv.session_type
                                == cur.session_type && uv.session_time == cur.end_secs as u16
                                && uv.session_laps == cur.laps && uv.grip_level == grip_bits
                                && uv.grid_position == seq![1u8] && uv.time == now_ms as i64))
                        } else {
                            r@.len() == 0
                        }
                    },
                    None => r@.len() == 0,
                })
            },
            _ => r@.len() == 0 && *final(state) == *old(state),
        }),
{
    let mut out: Vec<Outbound> = Vec::new();
    match packet {
        TestClient::CarUpdate(u) => {
            let found = match state.clients.get_from_ip(src_ip) {
                Some((id, c)) => Some((id, c.has_sent_first_update)),
                None => None,
            };
            match found {
                Some((id, already)) => {
                    if !already {
                        let ts = state.timestamp(now_ms);
                        let my_ping = match state.clients.get(id) {
                            Some(c) => (c.status.ping % 0x10000) as u16,
                            None => 0,
                        };
                        let my_car = match state.clients.get(id) {
                            Some(c) => c.car_id,
                            None => 0,
                        };
                        let mega = crate::packets::server::MegaPacket {
                            timestamp: ts,
                            ping: my_ping,
                            position_updates: build_positions(&state.clients),
                        };
                        proof {
                            assert(crate::vecs::views_of(mega.position_updates@)
                                =~= spec_positions(
                                state.clients.spec_slots(),
                                state.clients.spec_slots().len() as int,
                            ));
                        }
                        out.push(Outbound::Udp(id, TestServer::MegaPacket(mega)));
                        out.push(
                            Outbound::Tcp(
                                id,
                                TestServer::WelcomeMessage(
                                    crate::packets::server::WelcomeMessage {
                                        unknown: 0,
                                        welcome_msg: BigWideString(
                                            crate::weather::widen_bytes_exec(
                                                &state.config.server.welcome_message,
                                            ),
                                        ),
                                    },
                                ),
                            ),
                        );
                        out.push(
                            Outbound::Tcp(
                                id,
                                TestServer::Weather(state.options.current_weather().to_packet()),
                            ),
                        );
                        let ghost burst = spec_burst(*state, id.0 as int, ts);
                        proof {
                            assert(crate::vecs::views_of(out@) =~~= burst.take(3));
                        }
                        let n = state.clients.slot_count();
                        let ghost slots = state.clients.spec_slots();
                        let mut j: usize = 0;
                        while j < n
                            invariant
                                j <= n == state.clients.spec_slots().len(),
                                slots == state.clients.spec_slots(),
                                burst == spec_burst(*state, id.0 as int, ts),
                                id.0 < slots.len(),
                                my_car == (slots[id.0 as int]->Some_0).car_id,
                                crate::vecs::views_of(out@) == burst.take(3) + spec_burst_middle(
                                    slots,
                                    my_car as int,
                                    id,
                                    j as int,
                                ),
                            decreases n - j,
                        {
                            let ghost sofar = out@;
                            let ghost m_old = spec_burst_middle(slots, my_car as int, id, j as int);
                            match state.clients.get(ClientId(j)) {
                                Some(peer) => {
                                    let ghost ctc_v = OutboundView::Tcp(
                                        id,
                                        crate::packets::server::TestServerView::ChangeTireCompound(
                                            crate::packets::server::ChangeTireCompoundView {
                                                car_id: peer.car_id as u8,
                                                tire_compound: peer.status.current_tyre_compound@,
                                            },
                                        ),
                                    );
                                    let ghost mp_v = OutboundView::Tcp(
                                        id,
                                        crate::packets::server::TestServerView::MandatoryPit(
                                            crate::packets::server::MandatoryPit {
                                                car_id: peer.car_id as u8,
                                                mandatory_pit: peer.status.mandatory_pit,
                                            },
                                        ),
                                    );
                                    let ghost pp_v = OutboundView::Tcp(
                                        id,
                                        crate::packets::server::TestServerView::P2PCount(
                                            crate::packets::server::P2PCount {
                                                car_id: peer.car_id as u8,
                                                p2p_count: peer.status.p2p_count,
                                                active: false,
                                            },
                                        ),
                                    );
                                    if peer.car_id != my_car {
                                        let pkt = crate::packets::server::ChangeTireCompound {
                                            car_id: peer.car_id as u8,
                                            tire_compound: ByteString(
                                                clone_bytes(&peer.status.current_tyre_compound),
                                            ),
                                        };
                                        proof {
                                            assert(pkt@
                                                =~= crate::packets::server::ChangeTireCompoundView {
                                                car_id: peer.car_id as u8,
                                                tire_compound: peer.status.current_tyre_compound@,
                                            });
                                        }
                                        out.push(
                                            Outbound::Tcp(id, TestServer::ChangeTireCompound(pkt)),
                                        );
                                        out.push(
                                            Outbound::Tcp(
                                                id,
                                                TestServer::MandatoryPit(
                                                    crate::packets::server::MandatoryPit {
                                                        car_id: peer.car_id as u8,
                                                        mandatory_pit: peer.status.mandatory_pit,
                                                    },
                                                ),
                                            ),
                                        );
                                        out.push(
                                            Outbound::Tcp(
                                                id,
                                                TestServer::P2PCount(
                                                    crate::packets::server::P2PCount {
                                                        car_id: peer.car_id as u8,
                                                        p2p_count: peer.status.p2p_count,
                                                        active: false,
                                                    },
                                                ),
                                            ),
                                        );
                                    }
                                    proof {
                                        if peer.car_id != my_car {
                                            assert(spec_burst_middle(
                                                slots,
                                                my_car as int,
                                                id,
                                                j as int + 1,
                                            ) =~~= m_old + seq![ctc_v, mp_v, pp_v]);
                                            assert(crate::vecs::views_of(out@)
                                                =~~= crate::vecs::views_of(sofar) + seq![ctc_v, mp_v, pp_v]);
                                        } else {
                                            assert(spec_burst_middle(
                                                slots,
                                                my_car as int,
                                                id,
                                                j as int + 1,
                                            ) =~~= m_old);
                                            assert(out@ == sofar);
                                        }
                                    }
                                },
                                None => {
                                    proof {
                                        assert(spec_burst_middle(
                                            slots,
                                            my_car as int,
                                            id,
                                            j as int + 1,
                                        ) =~~= m_old);
                                    }
                                },
                            }
                            proof {
                                assert(crate::vecs::views_of(out@) =~~= burst.take(3)
                                    + spec_burst_middle(slots, my_car as int, id, j as int + 1));
                            }
                            j = j + 1;
                        }
                        let ghost sofar2 = out@;
                        let bops = crate::packets::server::Bops { cars: build_bops(&state.clients) };
                        proof {
                            assert(bops@ =~~= crate::packets::server::BopsView {
                                cars: spec_bops(slots, slots.len() as int),
                            });
                        }
                        out.push(Outbound::Tcp(id, TestServer::Bops(bops)));
                        proof {
                            let ghost bops_v = OutboundView::Tcp(
                                id,
                                crate::packets::server::TestServerView::Bops(
                                    crate::packets::server::BopsView {
                                        cars: spec_bops(slots, slots.len() as int),
                                    },
                                ),
                            );
                            assert(crate::vecs::views_of(out@) =~~= crate::vecs::views_of(sofar2)
                                + seq![bops_v]);
                            assert(burst =~~= burst.take(3) + spec_burst_middle(
                                slots,
                                my_car as int,
                                id,
                                slots.len() as int,
                            ) + seq![bops_v]);
                            assert(crate::vecs::views_of(out@) =~~= burst);
                        }
                    }
                    match &mut state.clients.slots[id.0] {
                        Some(c) => {
                            c.status.update(u);
                            c.has_sent_first_update = true;
                        },
                        None => {},
                    }
                    proof {
                        lemma_wf_after_slot_update(*old(state), *state, id.0 as int);
                        assert(state.clients.spec_slots() =~= old(
                            state,
                        ).clients.spec_slots().update(
                            id.0 as int,
                            state.clients.spec_slots()[id.0 as int],
                        ));
                    }
                },
                None => {},
            }
        },
        TestClient::UpdateUpdAddress(_) => {
            let found = match state.clients.get_from_ip(src_ip) {
                Some((id, _)) => Some(id),
                None => None,
            };
            match found {
                Some(id) => {
                    match &mut state.clients.slots[id.0] {
                        Some(c) => {
                            c.set_udp(src_ip, src_port);
                        },
                        None => {},
                    }
                    proof {
                        lemma_wf_after_slot_update(*old(state), *state, id.0 as int);
                        assert(state.clients.spec_slots() =~= old(
                            state,
                        ).clients.spec_slots().update(
                            id.0 as int,
                            state.clients.spec_slots()[id.0 as int],
                        ));
                    }
                    out.push(
                        Outbound::Udp(
                            id,
                            TestServer::UpdateUpdAddress(
                                crate::packets::server::UpdateUpdAddress {  },
                            ),
                        ),
                    );
                },
                None => {},
            }
        },
        TestClient::LobbyCheckMessage(_) => {
            out.push(
                Outbound::Datagram(
                    src_ip,
                    src_port,
                    TestServer::LobbyCheckMessage(
                        crate::packets::server::LobbyCheckMessage {
                            http_port: state.config.server.http_port,
                        },
                    ),
                ),
            );
        },
        TestClient::Pong(p) => {
            let found = match state.clients.get_from_ip(src_ip) {
                Some((id, _)) => Some(id),
                None => None,
            };
            match found {
                Some(id) => {
                    let ts = state.timestamp(now_ms);
                    match &mut state.clients.slots[id.0] {
                        Some(c) => {
                            let ping: u32 = if ts >= p.ping {
                                ts - p.ping
                            } else {
                                0
                            };
                            c.status.ping = ping;
                            c.status.time_offset = if ping / 2 <= 0xFFFFFFFFu32 - p.time_offset {
                                ping / 2 + p.time_offset
                            } else {
                                0xFFFFFFFFu32
                            };
                            c.status.last_pong_time = now_ms;
                        },
                        None => {},
                    }
                    proof {
                        lemma_wf_after_slot_update(*old(state), *state, id.0 as int);
                        assert(state.clients.spec_slots() =~= old(
                            state,
                        ).clients.spec_slots().update(
                            id.0 as int,
                            state.clients.spec_slots()[id.0 as int],
                        ));
                    }
                },
                None => {},
            }
        },
        TestClient::SessionRequest(rq) => {
            let found = match state.clients.get_from_ip(src_ip) {
                Some((id, _)) => Some(id),
                None => None,
            };
            match found {
                Some(id) => {
                    let current = state.options.sessions.get_current_session().session_type;
                    if !(rq.session_type == current) {
                        let mut grid: Vec<u8> = Vec::new();
                        grid.push(1);
                        let pkt = crate::packets::server::UpdateSession {
                            session_name: ByteString(
                                clone_bytes(&state.options.sessions.get_current_session().name),
                            ),
                            session_index: state.options.sessions.get_current() as u8,
                            session_type: current,
                            session_time: state.options.sessions.get_current_session().end_secs
                                as u16,
                            session_laps: state.options.sessions.get_current_session().laps,
                            grip_level: grip_bits,
                            grid_position: grid,
                            time: now_ms as i64,
                        };
                        proof {
                            assert(crate::vecs::views_of(pkt.grid_position@) =~= seq![1u8]);
                        }
                        out.push(Outbound::Tcp(id, TestServer::UpdateSession(pkt)));
                    }
                },
                None => {},
            }
        },
        _ => {},
    }
    out
}

/// The handles of the silent clients among the first `n`, in slot
/// order.
pub open spec fn spec_silent_ids(slots: Seq<Option<Client>>, now_ms: u64, n: int) -> Seq<ClientId>
    decreases n,
{
    if n <= 0 {
        Seq::empty()
    } else {
        let pre = spec_silent_ids(slots, now_ms, n - 1);
        match slots[n - 1] {
            Some(c) => if is_silent(c, now_ms) {
                pre.push(ClientId((n - 1) as usize))
            } else {
                pre
            },
            None => pre,
        }
    }
}

/// The car slots of the silent clients among the first `n`, in slot
/// order.
pub open spec fn spec_silent_cars(slots: Seq<Option<Client>>, now_ms: u64, n: int) -> Seq<int>
    decreases n,
{
    if n <= 0 {
        Seq::empty()
    } else {
        let pre = spec_silent_cars(slots, now_ms, n - 1);
        match slots[n - 1] {
            Some(c) => if is_silent(c, now_ms) {
                pre.push(c.car_id as int)
            } else {
                pre
            },
            None => pre,
        }
    }
}

/// The registry after the liveness check: silent clients gone, the rest
/// as they were.
pub open spec fn spec_surviving(slots: Seq<Option<Client>>, now_ms: u64) -> Seq<Option<Client>> {
    Seq::new(
        slots.len(),
        |i: int|
            match slots[i] {
                Some(c) => if is_silent(c, now_ms) {
                    None
                } else {
                    Some(c)
                },
                None => None,
            },
    )
}

/// A client after one tick: its ping clock resets when a ping went out.
pub open spec fn spec_after_tick(c: Client, now_ms: u64) -> Client {
    if c.has_sent_first_update && ping_due(c, now_ms) {
        Client {
            status: crate::clients::ClientStatus { last_ping_time: now_ms, ..c.status },
            ..c
        }
    } else {
        c
    }
}

/// One freed car announced to every surviving client, in slot order.
pub open spec fn spec_disconnects_for(car: int, slots: Seq<Option<Client>>, m: int) -> Seq<
    OutboundView,
>
    decreases m,
{
    if m <= 0 {
        Seq::empty()
    } else {
        let pre = spec_disconnects_for(car, slots, m - 1);
        match slots[m - 1] {
            Some(_) => pre.push(
                OutboundView::Tcp(
                    ClientId((m - 1) as usize),
                    crate::packets::server::TestServerView::ClientDisconnect(
                        crate::packets::server::ClientDisconnect { car_id: car as u8 },
                    ),
                ),
            ),
            None => pre,
        }
    }
}

/// The disconnect announcements for the first `k` freed cars, each
/// broadcast to every survivor.
pub open spec fn spec_disconnect_msgs(
    cars_gone: Seq<int>,
    slots: Seq<Option<Client>>,
    k: int,
) -> Seq<OutboundView>
    decreases k,
{
    if k <= 0 {
        Seq::empty()
    } else {
        spec_disconnect_msgs(cars_gone, slots, k - 1) + spec_disconnects_for(
            cars_gone[k - 1],
            slots,
            slots.len() as int,
        )
    }
}

/// The fan-out one surviving client receives on a tick: nothing before
/// its first update; afterwards the position fan-out, preceded by a ping
/// when one is due.
pub open spec fn spec_tick_row(
    c: Client,
    now_ms: u64,
    ts: u32,
    positions: Seq<crate::packets::server::PositionUpdate>,
    j: int,
) -> Seq<OutboundView> {
    if c.has_sent_first_update {
        let mega = OutboundView::Udp(
            ClientId(j as usize),
            crate::packets::server::TestServerView::MegaPacket(
                crate::packets::server::MegaPacketView {
                    timestamp: ts,
                    ping: (c.status.ping % 0x10000) as u16,
                    position_updates: positions,
                },
            ),
        );
        if ping_due(c, now_ms) {
            seq![
                OutboundView::Udp(
                    ClientId(j as usize),
                    crate::packets::server::TestServerView::Ping(
                        crate::packets::server::Ping {
                            last_ping_time: ts,
                            ping: (c.status.ping % 0x10000) as u16,
                        },
                    ),
                ),
                mega,
            ]
        } else {
            seq![mega]
        }
    } else {
        Seq::empty()
    }
}

/// The tick fan-out over the first `n` surviving slots, in slot order.
pub open spec fn spec_tick_msgs(
    slots: Seq<Option<Client>>,
    now_ms: u64,
    ts: u32,
    positions: Seq<crate::packets::server::PositionUpdate>,
    n: int,
) -> Seq<OutboundView>
    decreases n,
{
    if n <= 0 {
        Seq::empty()
    } else {
        let pre = spec_tick_msgs(slots, now_ms, ts, positions, n - 1);
        match slots[n - 1] {
            Some(c) => pre + spec_tick_row(c, now_ms, ts, positions, n - 1),
            None => pre,
        }
    }
}

/// One liveness and fan-out tick over every client.
///
/// Every client whose last pong is more than ten seconds old is removed,
/// its car slot freed, and its departure announced to every survivor, so
/// afterwards no active client is silent beyond the window.  Every
/// surviving client that has sent its first update then receives the
/// position fan-out, preceded by a ping when a second has passed since
/// its last one, whose clock is then reset.  The position rows are those
/// of all clients as the tick found them.
#[verifier::rlimit(100)]
#[verifier::spinoff_prover]
pub fn send_pings_and_updates(state: &mut ServerState, now_ms: u64) -> (r: (
    Vec<ClientId>,
    Vec<Outbound>,
))
    requires
        old(state).wf(),
        now_ms >= old(state).start_ms,
    ensures
        final(state).wf(),
        final(state).cars.spec_cars().len() == old(state).cars.spec_cars().len(),
        final(state).options == old(state).options,
        final(state).config == old(state).config,
        final(state).clients.spec_slots().len() == old(state).clients.spec_slots().len(),
        (forall|i: int|
            0 <= i < old(state).clients.spec_slots().len() ==> final(state).clients.spec_slots()[
                i] == (match old(state).clients.spec_slots()[i] {
                Some(c) => if is_silent(c, now_ms) {
                    None
                } else {
                    Some(spec_after_tick(c, now_ms))
                },
                None => None,
            })),
        (forall|i: int|
            0 <= i < old(state).clients.spec_slots().len() ==> (
            match #[trigger] old(state).clients.spec_slots()[i] {
                Some(c) => is_silent(c, now_ms) ==> final(state).cars.spec_cars()[
                    c.car_id as int].driver is None,
                None => true,
            })),
        (forall|j: int|
            0 <= j < old(state).cars.spec_cars().len() ==> ((#[trigger] final(state).cars.spec_cars()[
                j]) == old(state).cars.spec_cars()[j] || final(state).cars.spec_cars()[j]
                == (crate::cars::Car { driver: None, ..old(state).cars.spec_cars()[j] }))),
        r.0@ == spec_silent_ids(
            old(state).clients.spec_slots(),
            now_ms,
            old(state).clients.spec_slots().len() as int,
        ),
        crate::vecs::views_of(r.1@) == spec_disconnect_msgs(
            spec_silent_cars(
                old(state).clients.spec_slots(),
                now_ms,
                old(state).clients.spec_slots().len() as int,
            ),
            spec_surviving(old(state).clients.spec_slots(), now_ms),
            spec_silent_cars(
                old(state).clients.spec_slots(),
                now_ms,
                old(state).clients.spec_slots().len() as int,
            ).len() as int,
        ) + spec_tick_msgs(
            spec_surviving(old(state).clients.spec_slots(), now_ms),
            now_ms,
            ((now_ms - old(state).start_ms) % 0x100000000) as u32,
            spec_positions(
                old(state).clients.spec_slots(),
                old(state).clients.spec_slots().len() as int,
            ),
            old(state).clients.spec_slots().len() as int,
        ),
{
    let ghost slots0 = state.clients.spec_slots();
    let ghost surv = spec_surviving(slots0, now_ms);
    let mut removed: Vec<ClientId> = Vec::new();
    let mut silent_cars: Vec<usize> = Vec::new();
    let mut out: Vec<Outbound> = Vec::new();
    let positions = build_positions(&state.clients);
    let ghost positions0 = positions@;
    let ts = state.timestamp(now_ms);
    let n = state.clients.slot_count();
    let mut i: usize = 0;
    while i < n
        invariant
            i <= n == slots0.len(),
            slots0 == old(state).clients.spec_slots(),
            surv == spec_surviving(slots0, now_ms),
            old(state).wf(),
            state.wf(),
            state.cars.spec_cars().len() == old(state).cars.spec_cars().len(),
            state.options == old(state).options,
            state.config == old(state).config,
            state.start_ms == old(state).start_ms,
            state.clients.spec_slots().len() == slots0.len(),
            removed@ == spec_silent_ids(slots0, now_ms, i as int),
            silent_cars@.map_values(|x: usize| x as int) == spec_silent_cars(
                slots0,
                now_ms,
                i as int,
            ),
            forall|j: int| 0 <= j < i ==> state.clients.spec_slots()[j] == surv[j],
            forall|j: int|
                i <= j < slots0.len() ==> #[trigger] state.clients.spec_slots()[j] == slots0[j],
            forall|j: int|
                0 <= j < i ==> (match #[trigger] slots0[j] {
                    Some(c) => is_silent(c, now_ms) ==> state.cars.spec_cars()[
                        c.car_id as int].driver is None,
                    None => true,
                }),
            forall|j: int|
                0 <= j < state.cars.spec_cars().len() ==> (#[trigger] state.cars.spec_cars()[j]
                    == old(state).cars.spec_cars()[j] || state.cars.spec_cars()[j]
                    == (crate::cars::Car { driver: None, ..old(state).cars.spec_cars()[j] })),
        decreases n - i,
    {
        let mut silent = false;
        let mut car_here: usize = 0;
        match state.clients.get(ClientId(i)) {
            Some(c) => {
                silent = now_ms >= c.status.last_pong_time && now_ms - c.status.last_pong_time
                    > 10000;
                car_here = c.car_id;
            },
            None => {},
        }
        if silent {
            let ghost before = *state;
            let gone = state.clients.remove(ClientId(i));
            match gone {
                Some(old_client) => {
                    state.cars.remove_car(old_client.car_id);
                    removed.push(ClientId(i));
                    silent_cars.push(old_client.car_id);
                    proof {
                        let s = state.clients.spec_slots();
                        let p = before.clients.spec_slots();
                        let ncars = state.cars.spec_cars().len() as int;
                        assert forall|j: int| 0 <= j < s.len() implies (match #[trigger] s[j] {
                            Some(c) => c.wf() && c.car_id < ncars,
                            None => true,
                        }) by {
                            if j != i as int {
                                assert(s[j] == p[j]);
                            }
                        }
                        assert forall|a: int, b: int| 0 <= a < b < s.len() implies (match (
                        #[trigger] s[a], #[trigger] s[b]) {
                            (Some(x), Some(y)) => x.car_id != y.car_id && x.guid@ != y.guid@,
                            _ => true,
                        }) by {
                            if a != i as int {
                                assert(s[a] == p[a]);
                            }
                            if b != i as int {
                                assert(s[b] == p[b]);
                            }
                        }
                        assert(silent_cars@.map_values(|x: usize| x as int)
                            =~= spec_silent_cars(slots0, now_ms, i as int + 1));
                    }
                },
                None => {},
            }
        }
        i = i + 1;
    }
    proof {
        assert(state.clients.spec_slots() =~= surv);
    }
    let ghost cars_gone = spec_silent_cars(slots0, now_ms, slots0.len() as int);
    let nr = silent_cars.len();
    let mut ri: usize = 0;
    while ri < nr
        invariant
            ri <= nr == silent_cars@.len(),
            slots0 == old(state).clients.spec_slots(),
            surv == spec_surviving(slots0, now_ms),
            cars_gone == spec_silent_cars(slots0, now_ms, slots0.len() as int),
            silent_cars@.map_values(|x: usize| x as int) == cars_gone,
            state.clients.spec_slots() == surv,
            state.wf(),
            state.cars.spec_cars().len() == old(state).cars.spec_cars().len(),
            state.options == old(state).options,
            state.config == old(state).config,
            state.start_ms == old(state).start_ms,
            forall|j: int|
                0 <= j < slots0.len() ==> (match #[trigger] slots0[j] {
                    Some(c) => is_silent(c, now_ms) ==> state.cars.spec_cars()[
                        c.car_id as int].driver is None,
                    None => true,
                }),
            forall|j: int|
                0 <= j < state.cars.spec_cars().len() ==> (#[trigger] state.cars.spec_cars()[j]
                    == old(state).cars.spec_cars()[j] || state.cars.spec_cars()[j]
                    == (crate::cars::Car { driver: None, ..old(state).cars.spec_cars()[j] })),
            crate::vecs::views_of(out@) == spec_disconnect_msgs(cars_gone, surv, ri as int),
        decreases nr - ri,
    {
        let car = silent_cars[ri];
        let m = state.clients.slot_count();
        let mut j: usize = 0;
        while j < m
            invariant
                j <= m == surv.len(),
                state.clients.spec_slots() == surv,
                ri < silent_cars@.len(),
                silent_cars@.map_values(|x: usize| x as int) == cars_gone,
                car == silent_cars@[ri as int],
                car as int == cars_gone[ri as int],
                crate::vecs::views_of(out@) == spec_disconnect_msgs(cars_gone, surv, ri as int)
                    + spec_disconnects_for(car as int, surv, j as int),
            decreases m - j,
        {
            let ghost sofar = out@;
            let ghost cd_v = OutboundView::Tcp(
                ClientId(j),
                crate::packets::server::TestServerView::ClientDisconnect(
                    crate::packets::server::ClientDisconnect { car_id: car as u8 },
                ),
            );
            match state.clients.get(ClientId(j)) {
                Some(_) => {
                    out.push(
                        Outbound::Tcp(
                            ClientId(j),
                            TestServer::ClientDisconnect(
                                crate::packets::server::ClientDisconnect { car_id: car as u8 },
                            ),
                        ),
                    );
                    proof {
                        assert(spec_disconnects_for(car as int, surv, j as int + 1)
                            =~~= spec_disconnects_for(car as int, surv, j as int).push(cd_v));
                        assert(crate::vecs::views_of(out@) =~~= crate::vecs::views_of(
                            sofar,
                        ).push(cd_v));
                    }
                },
                None => {
                    proof {
                        assert(spec_disconnects_for(car as int, surv, j as int + 1)
                            =~~= spec_disconnects_for(car as int, surv, j as int));
                    }
                },
            }
            proof {
                assert(crate::vecs::views_of(out@) =~~= spec_disconnect_msgs(
                    cars_gone,
                    surv,
                    ri as int,
                ) + spec_disconnects_for(car as int, surv, j as int + 1));
            }
            j = j + 1;
        }
        proof {
            assert(surv.len() == m);
            assert(crate::vecs::views_of(out@) =~~= spec_disconnect_msgs(
                cars_gone,
                surv,
                ri as int + 1,
            ));
        }
        ri = ri + 1;
    }
    let ghost disc_all = spec_disconnect_msgs(cars_gone, surv, cars_gone.len() as int);
    proof {
        assert(cars_gone.len() == silent_cars@.map_values(|x: usize| x as int).len());
        assert(crate::vecs::views_of(out@) == disc_all);
    }
    let mut j2: usize = 0;
    while j2 < n
        invariant
            j2 <= n == surv.len(),
            slots0 == old(state).clients.spec_slots(),
            surv == spec_surviving(slots0, now_ms),
            cars_gone == spec_silent_cars(slots0, now_ms, slots0.len() as int),
            disc_all == spec_disconnect_msgs(cars_gone, surv, cars_gone.len() as int),
            positions0 == spec_positions(slots0, slots0.len() as int),
            positions@ == positions0,
            state.start_ms == old(state).start_ms,
            now_ms >= state.start_ms,
            ts == ((now_ms - old(state).start_ms) % 0x100000000) as u32,
            state.wf(),
            state.cars.spec_cars().len() == old(state).cars.spec_cars().len(),
            state.options == old(state).options,
            state.config == old(state).config,
            state.clients.spec_slots().len() == surv.len(),
            forall|j: int|
                0 <= j < slots0.len() ==> (match #[trigger] slots0[j] {
                    Some(c) => is_silent(c, now_ms) ==> state.cars.spec_cars()[
                        c.car_id as int].driver is None,
                    None => true,
                }),
            forall|j: int|
                0 <= j < state.cars.spec_cars().len() ==> (#[trigger] state.cars.spec_cars()[j]
                    == old(state).cars.spec_cars()[j] || state.cars.spec_cars()[j]
                    == (crate::cars::Car { driver: None, ..old(state).cars.spec_cars()[j] })),
            forall|j: int|
                0 <= j < j2 ==> state.clients.spec_slots()[j] == (match surv[j] {
                    Some(c) => Some(spec_after_tick(c, now_ms)),
                    None => None,
                }),
            forall|j: int|
                j2 <= j < surv.len() ==> #[trigger] state.clients.spec_slots()[j] == surv[j],
            crate::vecs::views_of(out@) == disc_all + spec_tick_msgs(
                surv,
                now_ms,
                ts,
                positions0,
                j2 as int,
            ),
        decreases n - j2,
    {
        let ghost sofar = out@;
        let mut active_first = false;
        let mut due = false;
        let mut my_ping: u16 = 0;
        match state.clients.get(ClientId(j2)) {
            Some(c) => {
                active_first = c.has_sent_first_update;
                due = now_ms >= c.status.last_ping_time && now_ms - c.status.last_ping_time
                    >= 1000;
                my_ping = (c.status.ping % 0x10000) as u16;
            },
            None => {},
        }
        if active_first {
            if due {
                let ghost before = *state;
                match &mut state.clients.slots[j2] {
                    Some(c) => {
                        c.status.last_ping_time = now_ms;
                    },
                    None => {},
                }
                proof {
                    lemma_wf_after_slot_update(before, *state, j2 as int);
                }
                out.push(
                    Outbound::Udp(
                        ClientId(j2),
                        TestServer::Ping(
                            crate::packets::server::Ping { last_ping_time: ts, ping: my_ping },
                        ),
                    ),
                );
            }
            let mega = crate::packets::server::MegaPacket {
                timestamp: ts,
                ping: my_ping,
                position_updates: crate::cars::clone_bytes_positions(&positions),
            };
            proof {
                assert(mega@ =~~= crate::packets::server::MegaPacketView {
                    timestamp: ts,
                    ping: my_ping,
                    position_updates: positions0,
                });
            }
            out.push(Outbound::Udp(ClientId(j2), TestServer::MegaPacket(mega)));
        }
        proof {
            match surv[j2 as int] {
                Some(c0) => {
                    let row = spec_tick_row(c0, now_ms, ts, positions0, j2 as int);
                    assert(spec_tick_msgs(surv, now_ms, ts, positions0, j2 as int + 1)
                        =~~= spec_tick_msgs(surv, now_ms, ts, positions0, j2 as int) + row);
                    assert(crate::vecs::views_of(out@) =~~= crate::vecs::views_of(sofar) + row);
                },
                None => {
                    assert(spec_tick_msgs(surv, now_ms, ts, positions0, j2 as int + 1)
                        =~~= spec_tick_msgs(surv, now_ms, ts, positions0, j2 as int));
                    assert(out@ == sofar);
                },
            }
            assert(crate::vecs::views_of(out@) =~~= disc_all + spec_tick_msgs(
                surv,
                now_ms,
                ts,
                positions0,
                j2 as int + 1,
            ));
        }
        j2 = j2 + 1;
    }
    proof {
        assert forall|i2: int| 0 <= i2 < slots0.len() implies state.clients.spec_slots()[i2] == (
        match slots0[i2] {
            Some(c) => if is_silent(c, now_ms) {
                None
            } else {
                Some(spec_after_tick(c, now_ms))
            },
            None => None,
        }) by {}
    }
    (removed, out)
}

} // verus!
