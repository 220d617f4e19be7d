//! The ownship accumulator: merges navigation fixes and barometric altitude
//! into the aircraft's own state.

use crate::report::{Report, ReportModel};
use crate::sensor::{GNSSData, SensorData};
use crate::util::div_round;
use crate::views::dvs;
use vstd::prelude::*;

verus! {

/// The aircraft's own accumulated state.
///
/// Latitude and longitude are held in GDL 90 semicircle units of
/// 180 / 2^23 degrees; the true track in 1e-5 degree steps.
#[derive(Clone, Copy, Debug, PartialEq)]
pub struct Ownship {
    /// True once a navigation fix has been processed.
    pub valid: bool,
    /// Latitude in 180 / 2^23 degree units.
    pub lat: i32,
    /// Longitude in 180 / 2^23 degree units.
    pub lon: i32,
    /// Altitude above mean sea level in ft.
    pub msl_altitude: i32,
    /// Height above the WGS-84 ellipsoid in ft.
    pub hae_altitude: i32,
    /// Cabin pressure altitude in ft.
    pub pressure_altitude: Option<i32>,
    /// Vertical speed in ft/min.
    pub vs: Option<i32>,
    /// Navigation integrity category.
    pub nic: u8,
    /// Navigation accuracy category for position.
    pub nacp: u8,
    /// Ground speed in knots, rounded (saturated at the type's maximum).
    pub gs: u16,
    /// True track in 1e-5 degree steps.
    pub true_track: i32,
}

impl Default for Ownship {
    /// The state before any sensor data: invalid, everything zero or absent.
    fn default() -> (r: Self)
        ensures
            r == Ownship::initial(),
    {
        Ownship {
            valid: false,
            lat: 0,
            lon: 0,
            msl_altitude: 0,
            hae_altitude: 0,
            pressure_altitude: None,
            vs: None,
            nic: 0,
            nacp: 0,
            gs: 0,
            true_track: 0,
        }
    }
}

impl Ownship {
    /// The state before any sensor data has been processed.
    pub open spec fn initial() -> Ownship {
        Ownship {
            valid: false,
            lat: 0,
            lon: 0,
            msl_altitude: 0,
            hae_altitude: 0,
            pressure_altitude: None,
            vs: None,
            nic: 0,
            nacp: 0,
            gs: 0,
            true_track: 0,
        }
    }

    pub fn new() -> (r: Self)
        ensures
            r == Ownship::initial(),
    {
        Ownship {
            valid: false,
            lat: 0,
            lon: 0,
            msl_altitude: 0,
            hae_altitude: 0,
            pressure_altitude: None,
            vs: None,
            nic: 0,
            nacp: 0,
            gs: 0,
            true_track: 0,
        }
    }
}

/// Navigation accuracy category for a horizontal accuracy given in
/// millimeters: the stepwise table over meters (3, 10, 30, 92.6, 185.2,
/// 555.6).
pub open spec fn nacp_of(acc_mm: u32) -> u8 {
    if acc_mm < 3000 {
        11
    } else if acc_mm < 10000 {
        10
    } else if acc_mm < 30000 {
        9
    } else if acc_mm < 92600 {
        8
    } else if acc_mm < 185200 {
        7
    } else if acc_mm < 555600 {
        6
    } else {
        0
    }
}

/// An integer clamped into `i32` range.
pub open spec fn sat_i32(v: int) -> i32 {
    if v > i32::MAX {
        i32::MAX
    } else if v < i32::MIN {
        i32::MIN
    } else {
        v as i32
    }
}

/// An integer clamped into `u16` range from below zero upward.
pub open spec fn sat_u16(v: int) -> u16 {
    if v > u16::MAX {
        u16::MAX
    } else if v < 0 {
        0
    } else {
        v as u16
    }
}

/// Latitude or longitude in 1e-7 degree steps converted to GDL 90
/// semicircle units of 180 / 2^23 degrees, rounded to nearest.
pub open spec fn e7_to_semicircle(raw: i32) -> int {
    crate::util::round_div(raw * 8388608, 1800000000)
}

/// Millimeters converted to feet, rounded to nearest (1 mm = 0.00328084 ft).
pub open spec fn mm_to_ft(mm: i32) -> int {
    crate::util::round_div(mm * 328084, 100000000)
}

/// Millimeters per second converted to knots, rounded to nearest
/// (1 mm/s = 0.00194384 kt).
pub open spec fn mmps_to_kt(mmps: u32) -> int {
    crate::util::round_div(mmps * 194384, 100000000)
}

/// The ownship state after a navigation fix: position, altitudes, speed and
/// track are taken from the fix; the integrity and accuracy categories come
/// from the reported horizontal accuracy; the state becomes and stays valid.
pub open spec fn ownship_fix_update(o: Ownship, f: crate::sensor::Fix) -> Ownship {
    Ownship {
        valid: true,
        lat: sat_i32(e7_to_semicircle(f.lat_lon.0.0)),
        lon: sat_i32(e7_to_semicircle(f.lat_lon.0.1)),
        msl_altitude: sat_i32(mm_to_ft(f.height_msl.0)),
        hae_altitude: sat_i32(mm_to_ft(f.height_ellipsoid.0)),
        pressure_altitude: o.pressure_altitude,
        vs: o.vs,
        nic: if f.lat_lon.1 is Some {
            9
        } else {
            0
        },
        nacp: if f.lat_lon.1 is Some {
            nacp_of(f.lat_lon.1.unwrap())
        } else {
            0
        },
        gs: sat_u16(mmps_to_kt(f.gs.0)),
        true_track: f.true_course.0,
    }
}

/// The ownship state after a barometric reading `b` ft: the vertical speed
/// is refreshed by an exponential smoothing with a five second time constant
/// over the tick interval `1 / freq`, and the pressure altitude latches `b`.
pub open spec fn ownship_baro_update(o: Ownship, b: i32, freq: u16) -> Ownship {
    let vs2: Option<i32> = if o.pressure_altitude is Some {
        if o.vs is Some {
            let prev = o.pressure_altitude.unwrap() as int;
            let num = 5 * (freq as int) * (o.vs.unwrap() as int) + 60 * (freq as int) * (b - prev);
            Some(sat_i32(crate::util::round_div(num, 5 * (freq as int) + 1)))
        } else {
            Some(0)
        }
    } else {
        o.vs
    };
    Ownship {
        valid: o.valid,
        lat: o.lat,
        lon: o.lon,
        msl_altitude: o.msl_altitude,
        hae_altitude: o.hae_altitude,
        pressure_altitude: Some(b),
        vs: vs2,
        nic: o.nic,
        nacp: o.nacp,
        gs: o.gs,
        true_track: o.true_track,
    }
}

/// Folding one sensor item into the ownship state; each accepted item also
/// publishes the updated state.
pub open spec fn ownship_step(o: Ownship, item: SensorData, freq: u16) -> (Ownship, Seq<
    ReportModel,
>) {
    match item {
        SensorData::GNSS(GNSSData::TimeFix { time, fix }) => {
            if fix is Some {
                let o2 = ownship_fix_update(o, fix.unwrap());
                (o2, seq![ReportModel::Ownship(o2)])
            } else {
                (o, Seq::<ReportModel>::empty())
            }
        },
        SensorData::Baro(b) => {
            let o2 = ownship_baro_update(o, b, freq);
            (o2, seq![ReportModel::Ownship(o2)])
        },
        _ => (o, Seq::<ReportModel>::empty()),
    }
}

/// A whole tick's sensor items folded into the ownship state.
pub open spec fn ownship_fold(o: Ownship, items: Seq<SensorData>, freq: u16) -> (Ownship, Seq<
    ReportModel,
>)
    decreases items.len(),
{
    if items.len() == 0 {
        (o, Seq::<ReportModel>::empty())
    } else {
        let (mid, out) = ownship_fold(o, items.drop_last(), freq);
        let (fin, more) = ownship_step(mid, items.last(), freq);
        (fin, out + more)
    }
}

/// A navigation fix sets the integrity category to 9 exactly when a
/// horizontal accuracy is reported, and the accuracy category exactly by
/// the stepwise accuracy table.
pub proof fn lemma_fix_accuracy_categories(o: Ownship, f: crate::sensor::Fix)
    ensures
        ownship_fix_update(o, f).nic == (if f.lat_lon.1 is Some {
            9u8
        } else {
            0u8
        }),
        ownship_fix_update(o, f).nacp == (if f.lat_lon.1 is Some {
            nacp_of(f.lat_lon.1.unwrap())
        } else {
            0u8
        }),
        ownship_fix_update(o, f).valid,
{
}

/// Once valid, the ownship state stays valid through any further input.
pub proof fn lemma_valid_latches(o: Ownship, items: Seq<SensorData>, freq: u16)
    requires
        o.valid,
    ensures
        ownship_fold(o, items, freq).0.valid,
    decreases items.len(),
{
    if items.len() > 0 {
        lemma_valid_latches(o, items.drop_last(), freq);
    }
}

impl Ownship {
    /// Saturating conversion of a rounded value into `i32`.
    fn clamp_i32(v: i64) -> (r: i32)
        ensures
            r == sat_i32(v as int),
    {
        if v > i32::MAX as i64 {
            i32::MAX
        } else if v < i32::MIN as i64 {
            i32::MIN
        } else {
            v as i32
        }
    }

    /// The ownship state after a navigation fix.
    fn fix_update(&self, f: &crate::sensor::Fix) -> (r: Ownship)
        ensures
            r == ownship_fix_update(*self, *f),
    {
        let (nic, nacp): (u8, u8) = match f.lat_lon.1 {
            Some(acc) => (
                9,
                if acc < 3000 {
                    11
                } else if acc < 10000 {
                    10
                } else if acc < 30000 {
                    9
                } else if acc < 92600 {
                    8
                } else if acc < 185200 {
                    7
                } else if acc < 555600 {
                    6
                } else {
                    0
                },
            ),
            None => (0, 0),
        };
        let lat = Self::clamp_i32(div_round((f.lat_lon.0.0 as i64) * 8388608, 1800000000));
        let lon = Self::clamp_i32(div_round((f.lat_lon.0.1 as i64) * 8388608, 1800000000));
        let msl = Self::clamp_i32(div_round((f.height_msl.0 as i64) * 328084, 100000000));
        let hae = Self::clamp_i32(div_round((f.height_ellipsoid.0 as i64) * 328084, 100000000));
        let kt: i64 = div_round((f.gs.0 as i64) * 194384, 100000000);
        let gs: u16 = if kt > u16::MAX as i64 {
            u16::MAX
        } else {
            kt as u16
        };
        Ownship {
            valid: true,
            lat,
            lon,
            msl_altitude: msl,
            hae_altitude: hae,
            pressure_altitude: self.pressure_altitude,
            vs: self.vs,
            nic,
            nacp,
            gs,
            true_track: f.true_course.0,
        }
    }

    /// The ownship state after a barometric reading.
    fn baro_update(&self, b: i32, freq: u16) -> (r: Ownship)
        ensures
            r == ownship_baro_update(*self, b, freq),
    {
        let vs2: Option<i32> = match self.pressure_altitude {
            Some(prev) => {
                match self.vs {
                    Some(v) => {
                        let fq: i64 = freq as i64;
                        proof {
                            let fqi = fq as int;
                            let vi = v as int;
                            let di = (b as int) - (prev as int);
                            assert((-0x10000000000000 <= 5 * fqi * vi <= 0x10000000000000) && (
                            -0x100000000000000 <= 60 * fqi * di <= 0x100000000000000))
                                by (nonlinear_arith)
                                requires
                                    0 <= fqi <= 65535 && -0x80000000 <= vi <= 0x7fffffff
                                        && -0x100000000 <= di <= 0x100000000,
                            ;
                        }
                        let num: i64 = 5 * fq * (v as i64) + 60 * fq * (b as i64 - prev as i64);
                        Some(Self::clamp_i32(div_round(num, 5 * fq + 1)))
                    },
                    None => Some(0),
                }
            },
            None => self.vs,
        };
        Ownship {
            valid: self.valid,
            lat: self.lat,
            lon: self.lon,
            msl_altitude: self.msl_altitude,
            hae_altitude: self.hae_altitude,
            pressure_altitude: Some(b),
            vs: vs2,
            nic: self.nic,
            nacp: self.nacp,
            gs: self.gs,
            true_track: self.true_track,
        }
    }

    /// Consume a tick's sensor items, merging navigation and barometric data
    /// into the ownship state and publishing the state after each update.
    pub fn run(
        &mut self,
        handle: &mut crate::handle::PushableHandle<Report>,
        items: &Vec<SensorData>,
    )
        ensures
            ({
                let (fin, out) = ownship_fold(*old(self), items@, old(handle).freq);
                *final (self) == fin && dvs(final (handle).queue@) == dvs(old(handle).queue@) + out
            }),
            final (handle).utc_sec == old(handle).utc_sec,
            final (handle).mono_ms == old(handle).mono_ms,
            final (handle).freq == old(handle).freq,
    {
        let freq = handle.get_frequency();
        let ghost q0 = dvs(old(handle).queue@);
        let mut i: usize = 0;
        while i < items.len()
            invariant
                i <= items@.len(),
                ownship_fold(*old(self), items@.take(i as int), freq) == (
                    *self,
                    dvs(handle.queue@).skip(q0.len() as int),
                ),
                dvs(handle.queue@).take(q0.len() as int) == q0,
                dvs(handle.queue@).len() >= q0.len(),
                q0 == dvs(old(handle).queue@),
                handle.utc_sec == old(handle).utc_sec,
                handle.mono_ms == old(handle).mono_ms,
                handle.freq == old(handle).freq,
                freq == old(handle).freq,
            decreases items@.len() - i,
        {
            proof {
                assert(items@.take(i + 1).drop_last() =~= items@.take(i as int));
                assert(items@.take(i + 1).last() == items@[i as int]);
            }
            let ghost pre = dvs(handle.queue@);
            match &items[i] {
                SensorData::GNSS(GNSSData::TimeFix { time: _, fix: Some(f) }) => {
                    let o2 = self.fix_update(f);
                    *self = o2;
                    handle.emit(Report::Ownship(o2));
                },
                SensorData::Baro(b) => {
                    let o2 = self.baro_update(*b, freq);
                    *self = o2;
                    handle.emit(Report::Ownship(o2));
                },
                _ => {},
            }
            proof {
                assert(dvs(handle.queue@).take(q0.len() as int) =~= pre.take(q0.len() as int));
                assert(dvs(handle.queue@).skip(q0.len() as int) =~= pre.skip(q0.len() as int)
                    + dvs(handle.queue@).skip(pre.len() as int));
                assert(dvs(handle.queue@).skip(pre.len() as int) =~= ownship_step(
                    ownship_fold(*old(self), items@.take(i as int), freq).0,
                    items@[i as int],
                    freq,
                ).1);
            }
            i = i + 1;
        }
        proof {
            assert(items@.take(items@.len() as int) =~= items@);
        }
    }
}

} // verus!
