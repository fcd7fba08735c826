//! The world model: temperatures, wind, the rotating weather and the sun
//! angle.  Temperatures and angles are held in thousandths of a degree;
//! random draws come from the process RNG through a single wrapper, and
//! every contract states what holds of every possible draw.
use crate::packets::server::Weather as WeatherPacket;
use vstd::prelude::*;

verus! {

/// Relies on `rand::Rng::gen_range` on `rand::thread_rng`: a value drawn
/// from the half-open range.  Nothing more is promised of the draw.
#[verifier::external_body]
fn rand_range(lo: i64, hi: i64) -> (r: i64)
    requires
        lo < hi,
    ensures
        lo <= r < hi,
{
    rand::Rng::gen_range(&mut rand::thread_rng(), lo..hi)
}

/// Relies on `rand::Rng::gen_range` on `rand::thread_rng`: an index
/// drawn below `n`.  Nothing more is promised of the draw.
#[verifier::external_body]
pub fn rand_index(n: usize) -> (r: usize)
    requires
        n > 0,
    ensures
        r < n,
{
    rand::Rng::gen_range(&mut rand::thread_rng(), 0..n)
}

/// A temperature in thousandths of a degree, resampled within a fixed
/// variation of its base.
#[derive(Debug, Clone, Copy, PartialEq, Eq, Structural)]
pub struct Temperature {
    pub temp: i64,
    pub base_temp: i64,
    pub variation: i64,
}

impl Temperature {
    /// The base and variation are bounded and the variation nonnegative,
    /// so draws stay within a fixed band of the base.
    pub open spec fn wf(&self) -> bool {
        &&& -1000000 <= self.base_temp <= 1000000
        &&& 0 <= self.variation <= 1000000
    }

    /// The current value is within the variation of the base.
    pub open spec fn in_band(&self) -> bool {
        self.base_temp - self.variation <= self.temp <= self.base_temp + self.variation
    }

    pub fn new(base_temp: i64, variation: i64) -> (r: Temperature)
        requires
            -1000000 <= base_temp <= 1000000,
            0 <= variation <= 1000000,
        ensures
            r.wf(),
            r.in_band(),
            r == (Temperature { temp: base_temp, base_temp, variation }),
    {
        Temperature { temp: base_temp, base_temp, variation }
    }

    /// Resamples the temperature; whatever is drawn, it stays within the
    /// variation of the base.
    pub fn update(&mut self)
        requires
            old(self).wf(),
        ensures
            final(self).wf(),
            final(self).in_band(),
            *final(self) == (Temperature { temp: final(self).temp, ..*old(self) }),
    {
        if self.variation > 0 {
            self.temp = rand_range(self.base_temp - self.variation, self.base_temp + self.variation);
        } else {
            self.temp = self.base_temp;
        }
    }

    /// The current temperature in thousandths of a degree.
    pub fn get(&self) -> (r: i64)
        ensures
            r == self.temp,
    {
        self.temp
    }
}

/// The wind: a speed within configured bounds and a direction within a
/// variation of a base bearing.
#[derive(Debug, Clone, Copy, PartialEq, Eq, Structural)]
pub struct Wind {
    pub speed: i64,
    pub direction: i64,
    pub speed_min: i64,
    pub speed_max: i64,
    pub variation_direction: i64,
    pub base_direction: i64,
}

impl Wind {
    pub open spec fn wf(&self) -> bool {
        &&& -1000 <= self.speed_min <= self.speed_max <= 1000
        &&& -100000 <= self.base_direction <= 100000
        &&& 0 <= self.variation_direction <= 100000
    }

    /// The current draw is within bounds: the speed between its limits
    /// and the direction a bearing reduced modulo 360.
    pub open spec fn in_band(&self) -> bool {
        &&& self.speed_min <= self.speed <= self.speed_max
        &&& -360 < self.direction < 360
    }

    pub fn new(speed_min: i64, speed_max: i64, base_direction: i64, variation_direction: i64) -> (r:
        Wind)
        requires
            -1000 <= speed_min <= speed_max <= 1000,
            -100000 <= base_direction <= 100000,
            0 <= variation_direction <= 100000,
        ensures
            r.wf(),
            r.in_band(),
    {
        let speed: i64 = if speed_min < speed_max {
            rand_range(speed_min, speed_max)
        } else {
            speed_min
        };
        let direction: i64 = base_direction % 360;
        Wind { speed, direction, speed_min, speed_max, variation_direction, base_direction }
    }

    /// Resamples speed and direction; whatever is drawn, the result
    /// stays in band.
    pub fn update(&mut self)
        requires
            old(self).wf(),
        ensures
            final(self).wf(),
            final(self).in_band(),
            *final(self) == (Wind {
                speed: final(self).speed,
                direction: final(self).direction,
                ..*old(self)
            }),
    {
        if self.speed_min < self.speed_max {
            self.speed = rand_range(self.speed_min, self.speed_max);
        } else {
            self.speed = self.speed_min;
        }
        let drawn: i64 = if self.variation_direction > 0 {
            rand_range(
                self.base_direction - self.variation_direction,
                self.base_direction + self.variation_direction,
            )
        } else {
            self.base_direction
        };
        self.direction = drawn % 360;
    }
}

/// One weather: its graphics name, the two temperatures and the wind.
#[derive(Debug, Clone, PartialEq)]
pub struct Weather {
    /// The graphics name as the wire carries it.
    pub graphics: Vec<u8>,
    pub ambient: Temperature,
    pub road: Temperature,
    pub wind: Wind,
}

impl Weather {
    pub open spec fn wf(&self) -> bool {
        &&& self.graphics@.len() <= 255
        &&& self.ambient.wf()
        &&& self.road.wf()
        &&& self.wind.wf()
    }

    pub open spec fn in_band(&self) -> bool {
        &&& self.ambient.in_band()
        &&& self.road.in_band()
        &&& self.wind.in_band()
    }

    pub fn new(graphics: Vec<u8>, ambient: Temperature, road: Temperature, wind: Wind) -> (r:
        Weather)
        requires
            graphics@.len() <= 255,
            ambient.wf(),
            road.wf(),
            wind.wf(),
        ensures
            r.wf(),
            r == (Weather { graphics: r.graphics, ambient, road, wind }),
            r.graphics@ == graphics@,
    {
        Weather { graphics, ambient, road, wind }
    }

    /// Resamples temperatures and wind; whatever is drawn, all values
    /// stay within their configured bands and the template itself — the
    /// graphics name, the bases and the variations — is untouched.
    pub fn update(&mut self)
        requires
            old(self).wf(),
        ensures
            final(self).wf(),
            final(self).in_band(),
            final(self).graphics@ == old(self).graphics@,
            final(self).ambient.base_temp == old(self).ambient.base_temp,
            final(self).ambient.variation == old(self).ambient.variation,
            final(self).road.base_temp == old(self).road.base_temp,
            final(self).road.variation == old(self).road.variation,
            final(self).wind.speed_min == old(self).wind.speed_min,
            final(self).wind.speed_max == old(self).wind.speed_max,
            final(self).wind.base_direction == old(self).wind.base_direction,
            final(self).wind.variation_direction == old(self).wind.variation_direction,
    {
        self.ambient.update();
        self.road.update();
        self.wind.update();
    }

    /// The weather as the broadcast packet carries it: temperatures in
    /// whole degrees clamped to a byte, and the wind on the wire scale.
    pub fn to_packet(&self) -> (r: WeatherPacket)
        requires
            self.wf(),
            self.in_band(),
        ensures
            r.ambient == clamp_byte(self.ambient.temp / 1000),
            r.road == clamp_byte(self.road.temp / 1000),
            r.name@ == widen_bytes(self.graphics@),
            r.wind_speed == self.wind.speed as i16,
            r.wind_direction == self.wind.direction as i16,
            <crate::packets::server::Weather as crate::wire::Writeable>::wf_v(r@),
    {
        WeatherPacket {
            ambient: clamp_byte_exec(self.ambient.temp / 1000),
            road: clamp_byte_exec(self.road.temp / 1000),
            name: crate::strings::WideString(widen_bytes_exec(&self.graphics)),
            wind_speed: self.wind.speed as i16,
            wind_direction: self.wind.direction as i16,
        }
    }
}

/// A value clamped into a byte.
pub open spec fn clamp_byte(v: int) -> u8 {
    if v < 0 {
        0u8
    } else if v > 255 {
        255u8
    } else {
        v as u8
    }
}

fn clamp_byte_exec(v: i64) -> (r: u8)
    ensures
        r == clamp_byte(v as int),
{
    if v < 0 {
        0
    } else if v > 255 {
        255
    } else {
        v as u8
    }
}

/// Each byte of an ASCII name as a wide character.
pub open spec fn widen_bytes(s: Seq<u8>) -> Seq<u32> {
    s.map_values(|b: u8| b as u32)
}

/// Widens a byte string to the wide characters the wire carries; every
/// byte is a valid Unicode scalar value.
pub fn widen_bytes_exec(s: &Vec<u8>) -> (r: Vec<u32>)
    ensures
        r@ == widen_bytes(s@),
        r@.len() == s@.len(),
        forall|i: int| 0 <= i < r@.len() ==> crate::strings::valid_wide_char(#[trigger] r@[i]),
{
    let mut out: Vec<u32> = Vec::new();
    let mut i: usize = 0;
    while i < s.len()
        invariant
            i <= s@.len(),
            out@.len() == i,
            forall|j: int| 0 <= j < i ==> out@[j] == (#[trigger] s@[j]) as u32,
        decreases s@.len() - i,
    {
        out.push(s[i] as u32);
        i = i + 1;
    }
    assert(out@ =~= widen_bytes(s@));
    out
}

/// The sun angle model, in thousandths of a degree.
#[derive(Debug, Clone, Copy, PartialEq, Eq, Structural)]
pub struct SunAngle {
    /// The configured base angle.
    pub sun_angle: i64,
    pub base_sun_angle: i64,
    pub time_of_day_mult: i64,
}

/// The sun angle after `elapsed_secs`: the base plus 0.044 degrees per
/// second scaled by the time-of-day multiplier (rounded toward zero),
/// clamped to [-80, +80] degrees.
pub open spec fn spec_sun_angle(base: i64, mult: i64, elapsed_secs: u64) -> int {
    let prod = elapsed_secs * 44 * mult;
    let scaled = if prod >= 0 {
        prod / 1000
    } else {
        -((-prod) / 1000)
    };
    let raw = base + scaled;
    if raw < -80000 {
        -80000
    } else if raw > 80000 {
        80000
    } else {
        raw
    }
}

impl SunAngle {
    pub open spec fn wf(&self) -> bool {
        &&& -80000 <= self.base_sun_angle <= 80000
        &&& -100000 <= self.time_of_day_mult <= 100000
    }

    pub fn new(base_sun_angle: i64, time_of_day_mult: i64) -> (r: SunAngle)
        requires
            -80000 <= base_sun_angle <= 80000,
            -100000 <= time_of_day_mult <= 100000,
        ensures
            r.wf(),
            r == (SunAngle { sun_angle: base_sun_angle, base_sun_angle, time_of_day_mult }),
    {
        SunAngle { sun_angle: base_sun_angle, base_sun_angle, time_of_day_mult }
    }

    /// The sun angle after the given elapsed time, always within
    /// [-80, +80] degrees.
    pub fn calc(&self, elapsed_secs: u64) -> (r: i64)
        requires
            self.wf(),
            elapsed_secs <= 0x7FFFFFFF,
        ensures
            r == spec_sun_angle(self.base_sun_angle, self.time_of_day_mult, elapsed_secs),
            -80000 <= r <= 80000,
    {
        let steps: i64 = (elapsed_secs as i64) * 44;
        proof {
            let ghost mult = self.time_of_day_mult;
            assert(-9223372036854775807i64 <= steps * mult <= 9223372036854775807i64 && steps
                * mult == elapsed_secs * 44 * mult) by (nonlinear_arith)
                requires
                    0 <= steps <= 0x7FFFFFFFi64 * 44,
                    steps == elapsed_secs * 44,
                    -100000 <= mult <= 100000,
            ;
        }
        let prod: i64 = steps * self.time_of_day_mult;
        let scaled: i64 = if prod >= 0 {
            prod / 1000
        } else {
            -((-prod) / 1000)
        };
        let raw: i64 = self.base_sun_angle + scaled;
        if raw < -80000 {
            -80000
        } else if raw > 80000 {
            80000
        } else {
            raw
        }
    }

    /// The configured base angle.
    pub fn get(&self) -> (r: i64)
        ensures
            r == self.sun_angle,
    {
        self.sun_angle
    }
}

/// The sun angle is always within [-80, +80] degrees.
pub proof fn lemma_sun_angle_in_range(base: i64, mult: i64, elapsed_secs: u64)
    ensures
        -80000 <= spec_sun_angle(base, mult, elapsed_secs) <= 80000,
{
}

} // verus!
