//! The dynamic track grip model.
//!
//! Grip is a scalar in [0, 1], held here in thousandths: it grows with
//! the laps completed in the session and carries a share of the gained
//! grip over to the next session.
use vstd::prelude::*;

verus! {

/// The dynamic grip state, all scalars in thousandths of full grip.
#[derive(Debug, Clone, Copy, PartialEq, Eq, Structural)]
pub struct DynamicTrack {
    pub enabled: bool,
    pub session_start_grip: i64,
    pub base_grip: i64,
    pub grip_per_lap: i64,
    pub random_grip: i64,
    pub laps: u32,
    pub gained_grip: i64,
    pub session_transfer: i64,
}

impl DynamicTrack {
    /// All scalars within one unit of grip, so the grip computation
    /// cannot overflow.
    pub open spec fn wf(&self) -> bool {
        &&& 0 <= self.base_grip <= 1000
        &&& 0 <= self.session_start_grip <= 1000
        &&& -1000 <= self.grip_per_lap <= 1000
        &&& 0 <= self.random_grip <= 1000
        &&& -1000000 <= self.gained_grip <= 1000000
        &&& 0 <= self.session_transfer <= 1000
    }

    pub open spec fn spec_grip_per_lap(&self) -> i64 {
        self.grip_per_lap
    }

    pub open spec fn spec_laps(&self) -> u32 {
        self.laps
    }

    /// The current grip in thousandths: full grip when the model is
    /// disabled, else the base plus the carried and per-lap gains,
    /// clamped to [0, 1000].
    pub open spec fn spec_grip(&self) -> int {
        if !self.enabled {
            1000int
        } else {
            let raw = self.base_grip + self.gained_grip + self.grip_per_lap * self.laps;
            if raw < 0 {
                0int
            } else if raw > 1000 {
                1000int
            } else {
                raw
            }
        }
    }

    /// Builds the grip model from configuration scalars in thousandths.
    pub fn new(
        enabled: bool,
        base_grip: i64,
        session_start_grip: i64,
        grip_per_lap: i64,
        random_grip: i64,
        session_transfer: i64,
    ) -> (r: DynamicTrack)
        requires
            0 <= base_grip <= 1000,
            0 <= session_start_grip <= 1000,
            -1000 <= grip_per_lap <= 1000,
            0 <= random_grip <= 1000,
            0 <= session_transfer <= 1000,
        ensures
            r.wf(),
            r == (DynamicTrack {
                enabled,
                session_start_grip,
                base_grip,
                grip_per_lap,
                random_grip,
                laps: 0u32,
                gained_grip: 0i64,
                session_transfer,
            }),
    {
        DynamicTrack {
            enabled,
            session_start_grip,
            base_grip,
            grip_per_lap,
            random_grip,
            laps: 0,
            gained_grip: 0,
            session_transfer,
        }
    }

    /// The grip state after one completed lap.
    pub open spec fn spec_after_lap(self) -> DynamicTrack {
        DynamicTrack {
            laps: if self.laps < 0xFFFFFFFFu32 {
                (self.laps + 1) as u32
            } else {
                self.laps
            },
            ..self
        }
    }

    /// Counts one completed lap in the session.
    pub fn on_lap_complete(&mut self)
        ensures
            *final(self) == old(self).spec_after_lap(),
    {
        if self.laps < 0xFFFFFFFF {
            self.laps = self.laps + 1;
        }
    }

    /// The grip share gained on a session advance: the distance from the
    /// base, scaled by the transfer factor, rounded toward zero.
    pub open spec fn spec_transfer_gain(&self) -> int {
        let scaled = (self.base_grip - self.spec_grip()) * self.session_transfer;
        if scaled >= 0 {
            scaled / 1000
        } else {
            -((-scaled) / 1000)
        }
    }

    /// The carried grip after a session advance: the old carry plus this
    /// session's transfer gain, held within the bounds the grip
    /// computation is safe for.
    pub open spec fn spec_carried_gain(&self) -> int {
        let accumulated = self.gained_grip + self.spec_transfer_gain();
        if accumulated < -1000000 {
            -1000000
        } else if accumulated > 1000000 {
            1000000
        } else {
            accumulated
        }
    }

    /// Starts a new session: the grip gained over the base adds a share
    /// of itself to the carried gain, and the session lap count resets.
    pub fn on_new_session(&mut self)
        requires
            old(self).wf(),
        ensures
            final(self).wf(),
            final(self).laps == 0,
            final(self).gained_grip == old(self).spec_carried_gain(),
            *final(self) == (DynamicTrack {
                laps: 0u32,
                gained_grip: final(self).gained_grip,
                ..*old(self)
            }),
    {
        let g = self.grip();
        let diff: i64 = self.base_grip - g as i64;
        proof {
            let ghost transfer = self.session_transfer;
            assert(-1000000 <= diff * transfer <= 1000000) by (nonlinear_arith)
                requires
                    -1000 <= diff <= 1000,
                    0 <= transfer <= 1000,
            ;
        }
        let scaled: i64 = diff * self.session_transfer;
        let gain: i64 = if scaled >= 0 {
            scaled / 1000
        } else {
            -((-scaled) / 1000)
        };
        let accumulated: i64 = self.gained_grip + gain;
        self.gained_grip = if accumulated < -1000000 {
            -1000000
        } else if accumulated > 1000000 {
            1000000
        } else {
            accumulated
        };
        self.laps = 0;
    }

    /// The current grip in thousandths, always in [0, 1000].
    pub fn grip(&self) -> (r: u32)
        requires
            self.wf(),
        ensures
            r == self.spec_grip(),
            0 <= r <= 1000,
    {
        if !self.enabled {
            return 1000;
        }
        proof {
            assert(-1000 * 0x100000000i64 <= self.grip_per_lap * self.laps <= 1000
                * 0x100000000i64) by (nonlinear_arith)
                requires
                    -1000 <= self.grip_per_lap <= 1000,
                    0 <= self.laps <= 0xFFFFFFFFu32,
            ;
        }
        let raw: i64 = self.base_grip + self.gained_grip + self.grip_per_lap * (self.laps as i64);
        if raw < 0 {
            0
        } else if raw > 1000 {
            1000
        } else {
            raw as u32
        }
    }
}

/// The grip is always within [0, 1]: the computation clamps it to
/// [0, 1000] thousandths, and a disabled model reports full grip.
pub proof fn lemma_grip_in_range(d: DynamicTrack)
    ensures
        0 <= d.spec_grip() <= 1000,
{
}

/// Within a session, grip never decreases with a completed lap as long
/// as the per-lap gain is nonnegative.
pub proof fn lemma_grip_monotonic(d: DynamicTrack)
    requires
        d.wf(),
        d.spec_grip_per_lap() >= 0,
    ensures
        d.spec_after_lap().spec_grip() >= d.spec_grip(),
{
    let a = d.spec_after_lap();
    assert(a.grip_per_lap * a.laps >= d.grip_per_lap * d.laps) by (nonlinear_arith)
        requires
            a.grip_per_lap == d.grip_per_lap,
            d.grip_per_lap >= 0,
            a.laps >= d.laps,
    ;
}

} // verus!
