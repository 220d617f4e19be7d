//! Typed sensor-layer data: satellite-navigation fixes and satellite status,
//! barometric altitude, decoded traffic reports and FIS-B uplink payloads.
//!
//! Angles are carried as scaled integers: latitude and longitude in 1e-7
//! degree steps (as the receiver's wire format delivers them), courses in
//! 1e-5 degree steps and magnetic declination in 1e-2 degree steps.

use crate::fisb::FISBData;
use crate::handle::PushableHandle;
use crate::traffic::TrafficData;
use vstd::prelude::*;

verus! {

#[derive(Clone, Copy, Debug, PartialEq, Eq, Structural)]
pub enum Constellation {
    GPS,
    SBAS,
    Galileo,
    GLONASS,
    Unknown,
}

#[derive(Clone, Copy, Debug, PartialEq, Eq, Structural)]
pub enum FixQuality {
    TwoDim,
    ThreeDim,
    SBAS,
    Unknown,
}

/// A UTC calendar timestamp as the receiver reports it.
#[derive(Clone, Copy, Debug, PartialEq)]
pub struct UtcTime {
    pub year: u16,
    pub month: u8,
    pub day: u8,
    pub hour: u8,
    pub min: u8,
    pub sec: u8,
}

/// Days between 1970-01-01 and the civil date `y-m-d`, by the standard
/// era-based formula; exact for months 1 to 12 and any day of month.
pub open spec fn days_from_civil(y: int, m: int, d: int) -> int {
    let yy = if m <= 2 {
        y - 1
    } else {
        y
    };
    let era = yy / 400;
    let yoe = yy - era * 400;
    let mp = (m + 9) % 12;
    let doy = (153 * mp + 2) / 5 + d - 1;
    let doe = yoe * 365 + yoe / 4 - yoe / 100 + doy;
    era * 146097 + doe - 719468
}

/// Seconds since the Unix epoch of a UTC calendar timestamp.
pub open spec fn epoch_secs(t: UtcTime) -> int {
    days_from_civil(t.year as int, t.month as int, t.day as int) * 86400 + (t.hour as int) * 3600
        + (t.min as int) * 60 + (t.sec as int)
}

impl UtcTime {
    /// Seconds since the Unix epoch of this timestamp.
    pub fn timestamp(&self) -> (r: i64)
        ensures
            r == epoch_secs(*self),
    {
        let y: i64 = self.year as i64;
        let m: i64 = self.month as i64;
        let yy: i64 = if m <= 2 {
            y - 1
        } else {
            y
        };
        // yy >= -1, so the floor of yy / 400 is -1 exactly when yy is negative
        let era: i64 = if yy < 0 {
            -1
        } else {
            yy / 400
        };
        proof {
            if yy < 0 {
                assert((-1int) * 400 == -400) by (nonlinear_arith);
                assert((yy as int) / 400 == -1) by {
                    vstd::arithmetic::div_mod::lemma_fundamental_div_mod_converse_div(
                        yy as int,
                        400,
                        -1,
                        (yy + 400) as int,
                    );
                }
            }
        }
        let yoe: i64 = yy - era * 400;
        let mp: i64 = (m + 9) % 12;
        let doy: i64 = (153 * mp + 2) / 5 + (self.day as i64) - 1;
        let doe: i64 = yoe * 365 + yoe / 4 - yoe / 100 + doy;
        let days: i64 = era * 146097 + doe - 719468;
        days * 86400 + (self.hour as i64) * 3600 + (self.min as i64) * 60 + (self.sec as i64)
    }
}

/// A navigation fix.  The first element of each pair is the reading, the
/// second its reported accuracy (millimeters, or the matching scaled unit),
/// if any.
#[derive(Clone, Copy, Debug, PartialEq)]
pub struct Fix {
    /// Fix quality.
    pub quality: FixQuality,
    /// Number of space vehicles used in the fix.
    pub num_sv: u8,
    /// Latitude and longitude in 1e-7 degree steps, with accuracy in mm.
    pub lat_lon: ((i32, i32), Option<u32>),
    /// Height above mean sea level in mm, with accuracy in mm.
    pub height_msl: (i32, Option<u32>),
    /// Height above the WGS-84 ellipsoid in mm, with accuracy in mm.
    pub height_ellipsoid: (i32, Option<u32>),
    /// Ground speed in mm/s, with accuracy in mm/s.
    pub gs: (u32, Option<u32>),
    /// True course in 1e-5 degree steps, with accuracy in the same unit.
    pub true_course: (i32, Option<u32>),
    /// Magnetic declination in 1e-2 degree steps, with accuracy.
    pub mag_dec: Option<(i16, Option<u16>)>,
}

/// Status of one tracked space vehicle.
#[derive(Clone, Copy, Debug, PartialEq)]
pub struct SVStatus {
    /// Constellation this satellite belongs to.
    pub system: Constellation,
    /// Vehicle id inside the constellation.
    pub sv_id: u8,
    /// Signal strength in dbHz.
    pub signal: Option<u8>,
    /// Elevation in degrees.
    pub elevation: Option<i8>,
    /// Azimuth in degrees.
    pub azimuth: Option<u16>,
    /// Whether the satellite reports healthy.
    pub healthy: Option<bool>,
    /// Signal acquired?
    pub acquired: bool,
    /// Used in the current solution?
    pub in_solution: bool,
    /// SBAS corrections applied to this vehicle?
    pub sbas_in_use: Option<bool>,
}

/// Data from the satellite-navigation receiver.
#[derive(Clone, Debug, PartialEq)]
pub enum GNSSData {
    /// A timestamped fix; at least one of `time` and `fix` is present.
    TimeFix { time: Option<UtcTime>, fix: Option<Fix> },
    /// Satellite status report.
    SatelliteInfo(Vec<SVStatus>),
}

/// One item of data handed up by the sensor layer.
#[derive(Clone, Debug, PartialEq)]
pub enum SensorData {
    GNSS(GNSSData),
    /// Barometric pressure altitude in ft.
    Baro(i32),
    Traffic(TrafficData),
    FISB(FISBData),
}

/// A stand-in navigation source that reports one fixed position each tick;
/// useful for exercising the pipeline without hardware.
pub struct FakeGNSSProvider {}

impl FakeGNSSProvider {
    pub fn new() -> (r: Option<Box<FakeGNSSProvider>>)
        ensures
            r is Some,
    {
        Some(Box::new(FakeGNSSProvider {  }))
    }

    /// The fix this provider always reports.
    pub fn fixed_report() -> (r: SensorData)
        ensures
            r == Self::fixed_report_spec(),
    {
        SensorData::GNSS(
            GNSSData::TimeFix {
                time: Some(UtcTime { year: 2014, month: 7, day: 8, hour: 9, min: 10, sec: 11 }),
                fix: Some(
                    Fix {
                        lat_lon: ((123450000, 123450000), Some(1000)),
                        height_msl: (1000, Some(500)),
                        height_ellipsoid: (900, Some(500)),
                        gs: (10000, Some(100)),
                        true_course: (12300000, Some(200000)),
                        quality: FixQuality::ThreeDim,
                        num_sv: 4,
                        mag_dec: Some((1000, Some(400))),
                    },
                ),
            },
        )
    }

    pub open spec fn fixed_report_spec() -> SensorData {
        SensorData::GNSS(
            GNSSData::TimeFix {
                time: Some(UtcTime { year: 2014, month: 7, day: 8, hour: 9, min: 10, sec: 11 }),
                fix: Some(
                    Fix {
                        lat_lon: ((123450000, 123450000), Some(1000)),
                        height_msl: (1000, Some(500)),
                        height_ellipsoid: (900, Some(500)),
                        gs: (10000, Some(100)),
                        true_course: (12300000, Some(200000)),
                        quality: FixQuality::ThreeDim,
                        num_sv: 4,
                        mag_dec: Some((1000, Some(400))),
                    },
                ),
            },
        )
    }

    /// Push the fixed report into the sensor queue.
    pub fn run(&mut self, h: &mut PushableHandle<SensorData>)
        ensures
            final (h).queue@ == old(h).queue@.push(Self::fixed_report_spec()),
            final (h).utc_sec == old(h).utc_sec,
            final (h).mono_ms == old(h).mono_ms,
            final (h).freq == old(h).freq,
    {
        let fix = Self::fixed_report();
        h.emit(fix);
    }
}

} // verus!
