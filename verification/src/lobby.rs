//! The read-only lobby view: the values the two lobby endpoints serve.
//! Serialising them and speaking the protocol around them happens outside
//! the library; what is computed here is exactly which values they carry.
use crate::game::ServerState;
use vstd::prelude::*;

verus! {

/// One car slot as the lobby's car endpoint shows it.
#[derive(Debug, Clone, PartialEq)]
pub struct Car {
    pub model: Vec<u8>,
    pub skin: Vec<u8>,
    pub driver_name: Vec<u8>,
    pub driver_team: Vec<u8>,
    pub driver_nation: Vec<u8>,
    pub is_connected: bool,
    pub is_requested_guid: bool,
    pub is_entry_list: bool,
}

/// The lobby snapshot of the server.
#[derive(Debug, Clone, PartialEq)]
pub struct Info {
    pub ip: Vec<u8>,
    pub port: u16,
    pub cport: u16,
    pub name: Vec<u8>,
    pub clients: u16,
    pub maxclients: u16,
    pub track: Vec<u8>,
    pub cars: Vec<Vec<u8>>,
    pub timeofday: u64,
    pub session: u16,
    pub sessiontypes: Vec<u8>,
    pub durations: Vec<i64>,
    pub timeleft: u64,
    pub country: Vec<Vec<u8>>,
    pub pass: bool,
    pub timestamp: u64,
    pub l: bool,
    pub pickup: bool,
    pub tport: u16,
    pub timed: bool,
    pub extra: bool,
    pub pit: bool,
    pub inverted: u8,
}

/// Builds the lobby snapshot: the ports, the client counts from the car
/// table, the track and car models, and the current session's index,
/// type list, durations and time left.
pub fn lobby_info(state: &ServerState, now_ms: u64) -> (r: Info)
    requires
        state.wf(),
        now_ms >= state.options.sessions.spec_start(),
    ensures
        r.port == state.config.server.tcp_port,
        r.cport == state.config.server.http_port,
        r.tport == state.config.server.tcp_port,
        r.name@ == state.config.server.name@,
        r.track@ == state.config.track@,
        r.maxclients == state.cars.spec_cars().len(),
        r.clients == crate::cars::count_occupied(
            state.cars.spec_cars(),
            state.cars.spec_cars().len() as int,
        ),
        r.session == state.options.sessions.spec_current(),
        r.sessiontypes@.len() == state.options.sessions.spec_sessions().len(),
        r.durations@.len() == state.options.sessions.spec_sessions().len(),
        r.timeleft == (if state.options.sessions.spec_is_over(now_ms) {
            0int
        } else {
            (state.options.sessions.spec_current_session().end_secs * 1000 - (now_ms
                - state.options.sessions.spec_start())) / 1000
        }),
        r.pass == (state.config.game.password is Some),
    {
    let left_ms = state.options.sessions.left_time(now_ms);
    Info {
        ip: Vec::new(),
        port: state.config.server.tcp_port,
        cport: state.config.server.http_port,
        name: crate::cars::clone_bytes(&state.config.server.name),
        clients: state.cars.num_of_clients(),
        maxclients: state.cars.max_clients(),
        track: crate::cars::clone_bytes(&state.config.track),
        cars: state.cars.models(),
        timeofday: 1337,
        session: state.options.sessions.get_current() as u16,
        sessiontypes: state.options.sessions.get_types(),
        durations: state.options.sessions.get_durations(),
        timeleft: left_ms / 1000,
        country: Vec::new(),
        pass: state.config.game.password.is_some(),
        timestamp: 0,
        l: false,
        pickup: true,
        tport: state.config.server.tcp_port,
        timed: false,
        extra: false,
        pit: false,
        inverted: 0,
    }
}

/// Builds the per-slot car view of the lobby's car endpoint.
pub fn lobby_cars(state: &ServerState) -> (r: Vec<Car>)
    requires
        state.wf(),
    ensures
        r@.len() == state.cars.spec_cars().len(),
        forall|i: int|
            0 <= i < r@.len() ==> ((#[trigger] r@[i]).is_connected == (
            state.cars.spec_cars()[i].driver is Some) && r@[i].model@
                == state.cars.spec_cars()[i].model@ && r@[i].skin@
                == state.cars.spec_cars()[i].skin@),
{
    let n = state.cars.cars.len();
    let mut out: Vec<Car> = Vec::new();
    let mut i: usize = 0;
    while i < n
        invariant
            i <= n == state.cars.spec_cars().len(),
            out@.len() == i,
            forall|j: int|
                0 <= j < i ==> ((#[trigger] out@[j]).is_connected == (
                state.cars.spec_cars()[j].driver is Some) && out@[j].model@
                    == state.cars.spec_cars()[j].model@ && out@[j].skin@
                    == state.cars.spec_cars()[j].skin@),
        decreases n - i,
    {
        let c = &state.cars.cars[i];
        let row = match &c.driver {
            Some(d) => Car {
                model: crate::cars::clone_bytes(&c.model),
                skin: crate::cars::clone_bytes(&c.skin),
                driver_name: crate::cars::clone_bytes(&d.name),
                driver_team: crate::cars::clone_bytes(&d.team),
                driver_nation: crate::cars::clone_bytes(&d.nation),
                is_connected: true,
                is_requested_guid: false,
                is_entry_list: true,
            },
            None => Car {
                model: crate::cars::clone_bytes(&c.model),
                skin: crate::cars::clone_bytes(&c.skin),
                driver_name: Vec::new(),
                driver_team: Vec::new(),
                driver_nation: Vec::new(),
                is_connected: false,
                is_requested_guid: false,
                is_entry_list: true,
            },
        };
        out.push(row);
        i = i + 1;
    }
    out
}

} // verus!
