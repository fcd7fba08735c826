//! The mutable server-side world: the weather templates and the current
//! weather, the sun angle, the dynamic grip, the session ledger and the
//! lap records.
use crate::config::Config;
use crate::packets::server::Lap;
use crate::session::Session;
use crate::session::Sessions;
use crate::track::DynamicTrack;
use crate::weather::rand_index;
use crate::weather::SunAngle;
use crate::weather::Temperature;
use crate::weather::Weather;
use crate::weather::Wind;
use vstd::prelude::*;

verus! {

/// The lap records of the current session, appended on every lap
/// completion and cleared on session advance.
#[derive(Debug, Clone, PartialEq)]
pub struct Laps {
    pub laps: Vec<Lap>,
}

impl Laps {
    /// An empty ledger.
    pub fn new() -> (r: Laps)
        ensures
            r.laps@ == Seq::<Lap>::empty(),
    {
        Laps { laps: Vec::new() }
    }

    /// Appends one lap record.
    pub fn add_lap(&mut self, lap: Lap)
        ensures
            final(self).laps@ == old(self).laps@.push(lap),
    {
        self.laps.push(lap);
    }

    /// A copy of all records.
    pub fn laps(&self) -> (r: Vec<Lap>)
        ensures
            r@ == self.laps@,
    {
        let mut out: Vec<Lap> = Vec::new();
        let mut i: usize = 0;
        while i < self.laps.len()
            invariant
                i <= self.laps@.len(),
                out@ == self.laps@.take(i as int),
            decreases self.laps@.len() - i,
        {
            out.push(self.laps[i]);
            assert(out@ =~= self.laps@.take(i as int + 1));
            i = i + 1;
        }
        assert(self.laps@.take(self.laps@.len() as int) =~= self.laps@);
        out
    }

    /// Clears the ledger for a new session.
    pub fn clear(&mut self)
        ensures
            final(self).laps@ == Seq::<Lap>::empty(),
    {
        self.laps.clear();
    }
}

/// A placeholder for state shared behind the options lock.
pub struct Inner {}

/// The mutable world state.
#[derive(Debug, Clone, PartialEq)]
pub struct ServerOptions {
    pub weathers: Vec<Weather>,
    pub current_weather: Weather,
    pub sun_angle: SunAngle,
    pub grip_level: DynamicTrack,
    pub sessions: Sessions,
    pub laps: Laps,
}

impl ServerOptions {
    pub open spec fn wf(&self) -> bool {
        &&& self.weathers@.len() >= 1
        &&& forall|i: int| 0 <= i < self.weathers@.len() ==> (#[trigger] self.weathers@[i]).wf()
        &&& self.current_weather.wf()
        &&& self.current_weather.in_band()
        &&& self.sun_angle.wf()
        &&& self.grip_level.wf()
        &&& self.sessions.wf()
    }

    /// Builds the world from already-validated configuration: the
    /// weather templates, the first of them current, the grip model and
    /// the session ledger.
    pub fn new(conf: &Config, now_ms: u64) -> (r: ServerOptions)
        requires
            conf.weathers@.len() >= 1,
            1 <= conf.sessions.sessions@.len() <= 255,
            -80000 <= conf.sun_angle <= 80000,
            -100000 <= conf.time_of_day_multiplier <= 100000,
            0 <= conf.dynamictrack.base_grip <= 1000,
            0 <= conf.dynamictrack.session_start_grip <= 1000,
            -1000 <= conf.dynamictrack.grip_per_lap <= 1000,
            0 <= conf.dynamictrack.random_grip <= 1000,
            0 <= conf.dynamictrack.session_transfer <= 1000,
            forall|i: int|
                0 <= i < conf.weathers@.len() ==> {
                    let w = #[trigger] conf.weathers@[i];
                    &&& w.graphics@.len() <= 255
                    &&& -1000000 <= w.base_ambient <= 1000000
                    &&& -1000000 <= w.base_road <= 1000000
                    &&& 0 <= w.variation_ambient <= 1000000
                    &&& 0 <= w.variation_road <= 1000000
                    &&& -1000 <= w.wind.base_speed_min <= w.wind.base_speed_max <= 1000
                    &&& -100000 <= w.wind.base_direction <= 100000
                    &&& 0 <= w.wind.variation_direction <= 100000
                },
            forall|i: int|
                0 <= i < conf.sessions.sessions@.len() ==> (
                #[trigger] conf.sessions.sessions@[i]).name@.len() <= 255,
        ensures
            r.wf(),
            r.sessions.spec_sessions().len() == conf.sessions.sessions@.len(),
            r.sessions.spec_current() == 0,
            r.sessions.spec_start() == now_ms,
            r.laps.laps@ == Seq::<Lap>::empty(),
            r.grip_level.laps == 0,
    {
        let mut weathers: Vec<Weather> = Vec::new();
        let nw = conf.weathers.len();
        let mut i: usize = 0;
        while i < nw
            invariant
                i <= nw == conf.weathers@.len(),
                weathers@.len() == i,
                forall|k: int|
                    0 <= k < conf.weathers@.len() ==> {
                        let w = #[trigger] conf.weathers@[k];
                        &&& w.graphics@.len() <= 255
                        &&& -1000000 <= w.base_ambient <= 1000000
                        &&& -1000000 <= w.base_road <= 1000000
                        &&& 0 <= w.variation_ambient <= 1000000
                        &&& 0 <= w.variation_road <= 1000000
                        &&& -1000 <= w.wind.base_speed_min <= w.wind.base_speed_max <= 1000
                        &&& -100000 <= w.wind.base_direction <= 100000
                        &&& 0 <= w.wind.variation_direction <= 100000
                    },
                forall|k: int|
                    0 <= k < i ==> (#[trigger] weathers@[k]).wf() && weathers@[k].in_band(),
            decreases nw - i,
        {
            let wc = &conf.weathers[i];
            let road = Temperature::new(wc.base_road, wc.variation_road);
            let ambient = Temperature::new(wc.base_ambient, wc.variation_ambient);
            let wind = Wind::new(
                wc.wind.base_speed_min,
                wc.wind.base_speed_max,
                wc.wind.base_direction,
                wc.wind.variation_direction,
            );
            let w = Weather::new(crate::cars::clone_bytes(&wc.graphics), ambient, road, wind);
            weathers.push(w);
            i = i + 1;
        }
        let current_weather = clone_weather(&weathers[0]);
        let mut sessions: Vec<Session> = Vec::new();
        let ns = conf.sessions.sessions.len();
        let mut j: usize = 0;
        while j < ns
            invariant
                j <= ns == conf.sessions.sessions@.len(),
                sessions@.len() == j,
                forall|k: int|
                    0 <= k < conf.sessions.sessions@.len() ==> (
                    #[trigger] conf.sessions.sessions@[k]).name@.len() <= 255,
                forall|k: int| 0 <= k < j ==> (#[trigger] sessions@[k]).name@.len() <= 255,
            decreases ns - j,
        {
            let sc = &conf.sessions.sessions[j];
            sessions.push(
                Session {
                    name: crate::cars::clone_bytes(&sc.name),
                    session_type: crate::packets::common::SessionType::from_byte(sc.session_type),
                    end_secs: sc.time as u32,
                    laps: sc.laps,
                },
            );
            j = j + 1;
        }
        ServerOptions {
            weathers,
            current_weather,
            sun_angle: SunAngle::new(conf.sun_angle, conf.time_of_day_multiplier),
            grip_level: DynamicTrack::new(
                conf.dynamictrack.enabled,
                conf.dynamictrack.base_grip,
                conf.dynamictrack.session_start_grip,
                conf.dynamictrack.grip_per_lap,
                conf.dynamictrack.random_grip,
                conf.dynamictrack.session_transfer,
            ),
            sessions: Sessions::new(sessions, now_ms),
            laps: Laps::new(),
        }
    }

    /// The current weather is one of the templates, resampled: same
    /// graphics name, bases and variations, with the drawn values inside
    /// their bands.
    pub open spec fn weather_from_template(w: Weather, t: Weather) -> bool {
        &&& w.graphics@ == t.graphics@
        &&& w.ambient.base_temp == t.ambient.base_temp
        &&& w.ambient.variation == t.ambient.variation
        &&& w.road.base_temp == t.road.base_temp
        &&& w.road.variation == t.road.variation
        &&& w.wind.speed_min == t.wind.speed_min
        &&& w.wind.speed_max == t.wind.speed_max
        &&& w.wind.base_direction == t.wind.base_direction
        &&& w.wind.variation_direction == t.wind.variation_direction
        &&& w.in_band()
    }

    /// Picks one weather template at random and resamples it; whichever
    /// template the draw picks, the current weather afterwards is that
    /// template with values inside its bands.
    pub fn update_weather(&mut self)
        requires
            old(self).wf(),
        ensures
            final(self).wf(),
            *final(self) == (ServerOptions {
                current_weather: final(self).current_weather,
                ..*old(self)
            }),
            exists|k: int|
                0 <= k < old(self).weathers@.len() && Self::weather_from_template(
                    final(self).current_weather,
                    #[trigger] old(self).weathers@[k],
                ),
    {
        let idx = rand_index(self.weathers.len());
        let mut picked = clone_weather(&self.weathers[idx]);
        picked.update();
        self.current_weather = picked;
        proof {
            assert(Self::weather_from_template(
                self.current_weather,
                old(self).weathers@[idx as int],
            ));
        }
    }

    /// The resolved current weather.
    pub fn current_weather(&self) -> (r: &Weather)
        ensures
            *r == self.current_weather,
            self.wf() ==> r.wf() && r.in_band(),
    {
        &self.current_weather
    }

    /// Advances to the next session: the ledger clears, a share of the
    /// gained grip carries over and the session lap count resets, the
    /// session clock restarts, and a fresh weather is drawn.
    pub fn next_session(&mut self, now_ms: u64)
        requires
            old(self).wf(),
        ensures
            final(self).wf(),
            final(self).laps.laps@ == Seq::<Lap>::empty(),
            final(self).grip_level.laps == 0,
            final(self).sessions.spec_current() == (old(self).sessions.spec_current() + 1) % (
            old(self).sessions.spec_sessions().len() as int),
            final(self).sessions.spec_start() == now_ms,
            final(self).sessions.spec_sessions() == old(self).sessions.spec_sessions(),
    {
        self.sessions.next_session(now_ms);
        self.grip_level.on_new_session();
        self.laps.clear();
        self.update_weather();
    }
}

/// Copies a weather value.
pub fn clone_weather(w: &Weather) -> (r: Weather)
    ensures
        r.graphics@ == w.graphics@,
        r.ambient == w.ambient,
        r.road == w.road,
        r.wind == w.wind,
        r.wf() == w.wf(),
        r.in_band() == w.in_band(),
{
    let g = crate::cars::clone_bytes(&w.graphics);
    Weather { graphics: g, ambient: w.ambient, road: w.road, wind: w.wind }
}

} // verus!
