//! The configuration model and its startup validation.
//!
//! Reading and parsing the configuration file happens outside the
//! library; what arrives here are plain values (temperatures and grip in
//! thousandths), and validation states exactly which invariant is the
//! first one violated, if any.
use vstd::prelude::*;

verus! {

/// Configured wind limits.
#[derive(Debug, Clone, Copy, PartialEq, Eq, Structural)]
pub struct Wind {
    pub base_speed_min: i64,
    pub base_speed_max: i64,
    pub base_direction: i64,
    pub variation_direction: i64,
}

/// One configured weather template, temperatures in thousandths of a
/// degree.
#[derive(Debug, Clone, PartialEq)]
pub struct WeatherConfig {
    pub graphics: Vec<u8>,
    pub base_ambient: i64,
    pub base_road: i64,
    pub variation_ambient: i64,
    pub variation_road: i64,
    pub wind: Wind,
}

/// One configured session.
#[derive(Debug, Clone, PartialEq)]
pub struct Session {
    pub name: Vec<u8>,
    pub session_type: u8,
    /// Duration in seconds.
    pub time: u16,
    pub laps: u16,
}

/// The configured session list with the result-screen and race-over
/// times.
#[derive(Debug, Clone, PartialEq)]
pub struct Sessions {
    pub result_screen_time_ms: u64,
    pub race_over_time_ms: u64,
    pub sessions: Vec<Session>,
}

/// The configured dynamic-track parameters, in thousandths of full grip.
#[derive(Debug, Clone, Copy, PartialEq, Eq, Structural)]
pub struct DynamicTrackConfig {
    pub enabled: bool,
    pub base_grip: i64,
    pub session_start_grip: i64,
    pub grip_per_lap: i64,
    pub random_grip: i64,
    pub session_transfer: i64,
}

/// The configured game rules.
#[derive(Debug, Clone, PartialEq)]
pub struct GameOptions {
    pub legal_tyres: Vec<u8>,
    pub force_virtual_mirror: bool,
    pub tc_allowed: u8,
    pub abs_allowed: u8,
    pub stability_allowed: bool,
    pub autoclutch_allowed: bool,
    pub tyre_blankets_allowed: bool,
    pub start_rule: u8,
    pub password: Option<Vec<u8>>,
    pub admin_password: Option<Vec<u8>>,
    pub max_contacts_per_km: u8,
    pub allowed_tyres: i16,
    pub vote_duration_ms: u64,
    pub has_extra_lap: bool,
    pub pit_window_start: u16,
    pub pit_window_end: u16,
    pub inverted_grid_positions: i16,
    pub race_gas_penalty_disabled: bool,
    /// Damage multiplier, fuel rate and tyre wear rate as raw float bits
    /// for the welcome frame.
    pub damage_multiplier_bits: u32,
    pub fuel_rate_bits: u32,
    pub tyre_wear_rate_bits: u32,
}

impl GameOptions {
    /// The pit window is enabled when both its bounds are set.
    pub fn pit_window_enabled(&self) -> (r: bool)
        ensures
            r == (self.pit_window_start != 0 && self.pit_window_end != 0),
    {
        self.pit_window_end != 0 && self.pit_window_start != 0
    }
}

/// The configured network identity of the server.
#[derive(Debug, Clone, PartialEq)]
pub struct ServerOptions {
    pub name: Vec<u8>,
    pub udp_port: u16,
    pub tcp_port: u16,
    pub http_port: u16,
    pub max_clients: u16,
    pub welcome_message: Vec<u8>,
    pub client_send_interval_hz: u8,
}

/// How much the server logs.
#[derive(Debug, Clone, Copy, PartialEq, Eq, Structural)]
pub enum LogLevel {
    Off,
    Error,
    Warn,
    Info,
    Debug,
    Trace,
}

/// The configured log level.
#[derive(Debug, Clone, Copy, PartialEq, Eq, Structural)]
pub struct Log {
    pub level: LogLevel,
}

/// The whole configuration as the library sees it.
#[derive(Debug, Clone, PartialEq)]
pub struct Config {
    pub server: ServerOptions,
    pub game: GameOptions,
    pub dynamictrack: DynamicTrackConfig,
    pub weathers: Vec<WeatherConfig>,
    pub sessions: Sessions,
    /// Base sun angle in thousandths of a degree.
    pub sun_angle: i64,
    /// Time-of-day multiplier in thousandths.
    pub time_of_day_multiplier: i64,
    pub track: Vec<u8>,
    pub cars: Vec<(Vec<u8>, Vec<u8>)>,
    pub log: Log,
}

impl Config {
    /// The track layout; the base configuration has none.
    pub fn get_track_config(&self) -> (r: Vec<u8>)
        ensures
            r@ == Seq::<u8>::empty(),
    {
        Vec::new()
    }
}

/// A configuration invariant violated at startup; for per-weather
/// violations the payload is the template index.
#[derive(Debug, Clone, Copy, PartialEq, Eq, Structural)]
pub enum ConfigError {
    RoadTempTooHigh(usize),
    AmbientTempTooHigh(usize),
    WindMinOverMax(usize),
    WindTooStrong(usize),
    SessionTimeZero(usize),
    PitWindowInverted,
    ResultScreenTimeTooShort,
    RaceOverTimeTooShort,
}

/// The first violation in one weather template, if any: road over 75
/// degrees, ambient over 45, wind minimum over maximum, or wind over 40.
pub open spec fn spec_weather_error(w: WeatherConfig, i: int) -> Option<ConfigError> {
    if w.base_road + w.variation_road > 75000 {
        Some(ConfigError::RoadTempTooHigh(i as usize))
    } else if w.base_ambient + w.variation_ambient > 45000 {
        Some(ConfigError::AmbientTempTooHigh(i as usize))
    } else if w.wind.base_speed_min > w.wind.base_speed_max {
        Some(ConfigError::WindMinOverMax(i as usize))
    } else if w.wind.base_speed_min > 40 || w.wind.base_speed_max > 40 {
        Some(ConfigError::WindTooStrong(i as usize))
    } else {
        None
    }
}

/// The first weather violation over the whole template list.
pub open spec fn spec_first_weather_error(ws: Seq<WeatherConfig>, n: int) -> Option<ConfigError>
    decreases n,
{
    if n <= 0 {
        None
    } else {
        match spec_first_weather_error(ws, n - 1) {
            Some(e) => Some(e),
            None => spec_weather_error(ws[n - 1], n - 1),
        }
    }
}

/// The first session with a zero duration.
pub open spec fn spec_first_session_error(ss: Seq<Session>, n: int) -> Option<ConfigError>
    decreases n,
{
    if n <= 0 {
        None
    } else {
        match spec_first_session_error(ss, n - 1) {
            Some(e) => Some(e),
            None => {
                if ss[n - 1].time == 0 {
                    Some(ConfigError::SessionTimeZero((n - 1) as usize))
                } else {
                    None
                }
            },
        }
    }
}

/// The first configuration invariant violated, in the order the checks
/// run: weather templates, session durations, the pit window, and the
/// two screen times.
pub open spec fn spec_first_config_error(cfg: Config) -> Option<ConfigError> {
    match spec_first_weather_error(cfg.weathers@, cfg.weathers@.len() as int) {
        Some(e) => Some(e),
        None => match spec_first_session_error(
            cfg.sessions.sessions@,
            cfg.sessions.sessions@.len() as int,
        ) {
            Some(e) => Some(e),
            None => {
                if cfg.game.pit_window_end <= cfg.game.pit_window_start && (
                cfg.game.pit_window_start != 0 && cfg.game.pit_window_end != 0) {
                    Some(ConfigError::PitWindowInverted)
                } else if cfg.sessions.result_screen_time_ms < 10000 {
                    Some(ConfigError::ResultScreenTimeTooShort)
                } else if cfg.sessions.race_over_time_ms < 30000 {
                    Some(ConfigError::RaceOverTimeTooShort)
                } else {
                    None
                }
            },
        },
    }
}

/// Checks the startup invariants: succeeds exactly when every invariant
/// holds, and otherwise reports the first violation.
pub fn validate(cfg: &Config) -> (r: Result<(), ConfigError>)
    requires
        forall|i: int|
            0 <= i < cfg.weathers@.len() ==> {
                let w = #[trigger] cfg.weathers@[i];
                -1000000000 <= w.base_road + w.variation_road <= 1000000000 && -1000000000
                    <= w.base_ambient + w.variation_ambient <= 1000000000
            },
    ensures
        (match r {
            Ok(_) => spec_first_config_error(*cfg) is None,
            Err(e) => spec_first_config_error(*cfg) == Some(e),
        }),
{
    let nw = cfg.weathers.len();
    let mut i: usize = 0;
    while i < nw
        invariant
            i <= nw == cfg.weathers@.len(),
            spec_first_weather_error(cfg.weathers@, i as int) is None,
            forall|k: int|
                0 <= k < cfg.weathers@.len() ==> {
                    let w = #[trigger] cfg.weathers@[k];
                    -1000000000 <= w.base_road + w.variation_road <= 1000000000 && -1000000000
                        <= w.base_ambient + w.variation_ambient <= 1000000000
                },
        decreases nw - i,
    {
        let w = &cfg.weathers[i];
        if w.base_road + w.variation_road > 75000 {
            proof {
                lemma_first_weather_error_step(cfg.weathers@, i as int, nw as int);
            }
            return Err(ConfigError::RoadTempTooHigh(i));
        }
        if w.base_ambient + w.variation_ambient > 45000 {
            proof {
                lemma_first_weather_error_step(cfg.weathers@, i as int, nw as int);
            }
            return Err(ConfigError::AmbientTempTooHigh(i));
        }
        if w.wind.base_speed_min > w.wind.base_speed_max {
            proof {
                lemma_first_weather_error_step(cfg.weathers@, i as int, nw as int);
            }
            return Err(ConfigError::WindMinOverMax(i));
        }
        if w.wind.base_speed_min > 40 || w.wind.base_speed_max > 40 {
            proof {
                lemma_first_weather_error_step(cfg.weathers@, i as int, nw as int);
            }
            return Err(ConfigError::WindTooStrong(i));
        }
        i = i + 1;
    }
    let ns = cfg.sessions.sessions.len();
    let mut j: usize = 0;
    while j < ns
        invariant
            j <= ns == cfg.sessions.sessions@.len(),
            spec_first_weather_error(cfg.weathers@, cfg.weathers@.len() as int) is None,
            spec_first_session_error(cfg.sessions.sessions@, j as int) is None,
        decreases ns - j,
    {
        if cfg.sessions.sessions[j].time == 0 {
            proof {
                lemma_first_session_error_step(cfg.sessions.sessions@, j as int, ns as int);
            }
            return Err(ConfigError::SessionTimeZero(j));
        }
        j = j + 1;
    }
    if cfg.game.pit_window_end <= cfg.game.pit_window_start && cfg.game.pit_window_enabled() {
        return Err(ConfigError::PitWindowInverted);
    }
    if cfg.sessions.result_screen_time_ms < 10000 {
        return Err(ConfigError::ResultScreenTimeTooShort);
    }
    if cfg.sessions.race_over_time_ms < 30000 {
        return Err(ConfigError::RaceOverTimeTooShort);
    }
    Ok(())
}

/// When the first `i` templates are clean and template `i` is bad, the
/// first error over any longer prefix is template `i`'s.
proof fn lemma_first_weather_error_step(ws: Seq<WeatherConfig>, i: int, n: int)
    requires
        0 <= i < n <= ws.len(),
        spec_first_weather_error(ws, i) is None,
        spec_weather_error(ws[i], i) is Some,
    ensures
        spec_first_weather_error(ws, n) == spec_weather_error(ws[i], i),
    decreases n,
{
    if n == i + 1 {
    } else {
        lemma_first_weather_error_step(ws, i, n - 1);
    }
}

/// When the first `j` sessions are clean and session `j` has no time,
/// the first error over any longer prefix is session `j`'s.
proof fn lemma_first_session_error_step(ss: Seq<Session>, j: int, n: int)
    requires
        0 <= j < n <= ss.len(),
        spec_first_session_error(ss, j) is None,
        ss[j].time == 0,
    ensures
        spec_first_session_error(ss, n) == Some(ConfigError::SessionTimeZero(j as usize)),
    decreases n,
{
    if n == j + 1 {
    } else {
        lemma_first_session_error_step(ss, j, n - 1);
    }
}

/// The ranges and lengths the library's world model is stated for:
/// exactly the preconditions of the world and car-table constructors and
/// the wire lengths of the configured strings.
pub open spec fn spec_config_ok(cfg: Config) -> bool {
    &&& cfg.weathers@.len() >= 1
    &&& 1 <= cfg.sessions.sessions@.len() <= 255
    &&& cfg.cars@.len() <= 255
    &&& -80000 <= cfg.sun_angle <= 80000
    &&& -100000 <= cfg.time_of_day_multiplier <= 100000
    &&& 0 <= cfg.dynamictrack.base_grip <= 1000
    &&& 0 <= cfg.dynamictrack.session_start_grip <= 1000
    &&& -1000 <= cfg.dynamictrack.grip_per_lap <= 1000
    &&& 0 <= cfg.dynamictrack.random_grip <= 1000
    &&& 0 <= cfg.dynamictrack.session_transfer <= 1000
    &&& (forall|i: int|
        0 <= i < cfg.weathers@.len() ==> {
            let w = #[trigger] cfg.weathers@[i];
            &&& w.graphics@.len() <= 255
            &&& -1000000 <= w.base_ambient <= 1000000
            &&& -1000000 <= w.base_road <= 1000000
            &&& 0 <= w.variation_ambient <= 1000000
            &&& 0 <= w.variation_road <= 1000000
            &&& -1000 <= w.wind.base_speed_min <= w.wind.base_speed_max <= 1000
            &&& -100000 <= w.wind.base_direction <= 100000
            &&& 0 <= w.wind.variation_direction <= 100000
        })
    &&& (forall|i: int|
        0 <= i < cfg.sessions.sessions@.len() ==> (#[trigger] cfg.sessions.sessions@[i]).name@.len()
            <= 255)
    &&& (forall|i: int|
        0 <= i < cfg.cars@.len() ==> ((#[trigger] cfg.cars@[i]).0@.len() <= 255
            && cfg.cars@[i].1@.len() <= 255))
    &&& cfg.server.name@.len() <= 255
    &&& cfg.server.welcome_message@.len() <= 65535
    &&& cfg.track@.len() <= 255
    &&& cfg.game.legal_tyres@.len() <= 255
    &&& (match cfg.game.password {
        Some(p) => p@.len() <= 255,
        None => true,
    })
    &&& (match cfg.game.admin_password {
        Some(p) => p@.len() <= 255,
        None => true,
    })
}

/// Whether the configuration lies within the ranges the library's
/// contracts are stated for; the process must refuse it otherwise.
pub fn config_ok(cfg: &Config) -> (r: bool)
    ensures
        r == spec_config_ok(*cfg),
{
    if cfg.weathers.len() < 1 {
        return false;
    }
    if cfg.sessions.sessions.len() < 1 || cfg.sessions.sessions.len() > 255 {
        return false;
    }
    if cfg.cars.len() > 255 {
        return false;
    }
    if !(-80000 <= cfg.sun_angle && cfg.sun_angle <= 80000) {
        return false;
    }
    if !(-100000 <= cfg.time_of_day_multiplier && cfg.time_of_day_multiplier <= 100000) {
        return false;
    }
    let d = &cfg.dynamictrack;
    if !(0 <= d.base_grip && d.base_grip <= 1000) {
        return false;
    }
    if !(0 <= d.session_start_grip && d.session_start_grip <= 1000) {
        return false;
    }
    if !(-1000 <= d.grip_per_lap && d.grip_per_lap <= 1000) {
        return false;
    }
    if !(0 <= d.random_grip && d.random_grip <= 1000) {
        return false;
    }
    if !(0 <= d.session_transfer && d.session_transfer <= 1000) {
        return false;
    }
    let nw = cfg.weathers.len();
    let mut i: usize = 0;
    while i < nw
        invariant
            i <= nw == cfg.weathers@.len(),
            forall|k: int|
                0 <= k < i ==> {
                    let w = #[trigger] cfg.weathers@[k];
                    &&& w.graphics@.len() <= 255
                    &&& -1000000 <= w.base_ambient <= 1000000
                    &&& -1000000 <= w.base_road <= 1000000
                    &&& 0 <= w.variation_ambient <= 1000000
                    &&& 0 <= w.variation_road <= 1000000
                    &&& -1000 <= w.wind.base_speed_min <= w.wind.base_speed_max <= 1000
                    &&& -100000 <= w.wind.base_direction <= 100000
                    &&& 0 <= w.wind.variation_direction <= 100000
                },
        decreases nw - i,
    {
        let w = &cfg.weathers[i];
        if w.graphics.len() > 255 {
            return false;
        }
        if !(-1000000 <= w.base_ambient && w.base_ambient <= 1000000) {
            return false;
        }
        if !(-1000000 <= w.base_road && w.base_road <= 1000000) {
            return false;
        }
        if !(0 <= w.variation_ambient && w.variation_ambient <= 1000000) {
            return false;
        }
        if !(0 <= w.variation_road && w.variation_road <= 1000000) {
            return false;
        }
        if !(-1000 <= w.wind.base_speed_min && w.wind.base_speed_min <= w.wind.base_speed_max
            && w.wind.base_speed_max <= 1000) {
            return false;
        }
        if !(-100000 <= w.wind.base_direction && w.wind.base_direction <= 100000) {
            return false;
        }
        if !(0 <= w.wind.variation_direction && w.wind.variation_direction <= 100000) {
            return false;
        }
        i = i + 1;
    }
    let ns = cfg.sessions.sessions.len();
    let mut j: usize = 0;
    while j < ns
        invariant
            j <= ns == cfg.sessions.sessions@.len(),
            forall|k: int|
                0 <= k < j ==> (#[trigger] cfg.sessions.sessions@[k]).name@.len() <= 255,
        decreases ns - j,
    {
        if cfg.sessions.sessions[j].name.len() > 255 {
            return false;
        }
        j = j + 1;
    }
    let nc = cfg.cars.len();
    let mut k: usize = 0;
    while k < nc
        invariant
            k <= nc == cfg.cars@.len(),
            forall|q: int|
                0 <= q < k ==> ((#[trigger] cfg.cars@[q]).0@.len() <= 255 && cfg.cars@[q].1@.len()
                    <= 255),
        decreases nc - k,
    {
        if cfg.cars[k].0.len() > 255 || cfg.cars[k].1.len() > 255 {
            return false;
        }
        k = k + 1;
    }
    if cfg.server.name.len() > 255 {
        return false;
    }
    if cfg.server.welcome_message.len() > 65535 {
        return false;
    }
    if cfg.track.len() > 255 {
        return false;
    }
    if cfg.game.legal_tyres.len() > 255 {
        return false;
    }
    match &cfg.game.password {
        Some(p) => {
            if p.len() > 255 {
                return false;
            }
        },
        None => {},
    }
    match &cfg.game.admin_password {
        Some(p) => {
            if p.len() > 255 {
                return false;
            }
        },
        None => {},
    }
    true
}

} // verus!
