//! UAT downlink payload parsing: decoding 978 MHz ADS-B payloads into
//! traffic reports — address qualification, position, altitude, the
//! airborne velocity vector with its derived ground speed and track, the
//! base-40 callsign or squawk, and the demodulator frame queue.

use crate::traffic::{AddressType, AltitudeType, HeadingType, SpeedType, TrafficData, TrafficDataModel, TrafficSource};
use crate::util::{is_rounded_sqrt, sqrt_round};
use vstd::prelude::*;

verus! {

/// The kind of a demodulated UAT frame.
#[derive(Debug, PartialEq, Eq, Structural, Copy, Clone)]
pub enum FrameType {
    ADSBShort,
    ADSBLong,
    GroundUplink,
}

/// A window move reported by the demodulator: the unconsumed byte range.
#[derive(Debug, PartialEq, Eq, Structural, Copy, Clone)]
pub struct Move {
    pub start: usize,
    pub end: usize,
}

/// One demodulated UAT frame.
#[derive(Debug, PartialEq)]
pub struct Frame {
    pub frame_type: FrameType,
    pub payload: Vec<u8>,
    /// Error-correction symbols repaired during demodulation.
    pub rs_error: u32,
}

/// The abstract value of a `Frame`.
pub ghost struct FrameModel {
    pub frame_type: FrameType,
    pub payload: Seq<u8>,
    pub rs_error: u32,
}

impl DeepView for Frame {
    type V = FrameModel;

    open spec fn deep_view(&self) -> FrameModel {
        FrameModel { frame_type: self.frame_type, payload: self.payload@, rs_error: self.rs_error }
    }
}

/// The queue of frames the demodulator has completed but the sensor has not
/// yet drained.
pub struct Dump978 {
    pub parsed: Vec<Frame>,
}

impl Dump978 {
    pub fn new() -> (r: Self)
        ensures
            crate::views::dvs(r.parsed@) == Seq::<FrameModel>::empty(),
    {
        let r = Dump978 { parsed: Vec::new() };
        proof {
            assert(crate::views::dvs(r.parsed@) =~= Seq::<FrameModel>::empty());
        }
        r
    }

    /// Queue one completed frame.
    pub fn push_frame(&mut self, frame_type: FrameType, payload: Vec<u8>, rs_error: u32)
        ensures
            crate::views::dvs(final (self).parsed@) == crate::views::dvs(
                old(self).parsed@,
            ).push(FrameModel { frame_type, payload: payload@, rs_error }),
    {
        let ghost pv = payload@;
        let frame = Frame { frame_type, payload, rs_error };
        let ghost pre = self.parsed@;
        self.parsed.push(frame);
        proof {
            assert(crate::views::dvs(self.parsed@) =~= crate::views::dvs(pre).push(
                FrameModel { frame_type, payload: pv, rs_error },
            ));
        }
    }

    /// Take the queued frames for the sensor to drain, leaving the queue
    /// empty.
    pub fn parsed_as_mut_ref(&mut self) -> (r: Vec<Frame>)
        ensures
            r == old(self).parsed,
            final (self).parsed@ == Seq::<Frame>::empty(),
    {
        let mut tmp: Vec<Frame> = Vec::new();
        core::mem::swap(&mut self.parsed, &mut tmp);
        tmp
    }
}

/// The base-40 character set of UAT callsigns.
pub const CALLSIGN_BASE40: [char; 40] = [
    '0',
    '1',
    '2',
    '3',
    '4',
    '5',
    '6',
    '7',
    '8',
    '9',
    'A',
    'B',
    'C',
    'D',
    'E',
    'F',
    'G',
    'H',
    'I',
    'J',
    'K',
    'L',
    'M',
    'N',
    'O',
    'P',
    'Q',
    'R',
    'S',
    'T',
    'U',
    'V',
    'W',
    'X',
    'Y',
    'Z',
    ' ',
    ' ',
    '.',
    '.',
];

/// Tangents of half-degree angles, `round(tan((k + 0.5) degrees) * 2^32)`
/// for `k` in `0..45`: the thresholds that separate whole rounded degrees
/// within the first octant.
pub const TAN_HALF_DEG: [u64; 45] = [
    37481612, 112467677, 187522322, 262691453, 338021257, 413558313, 489349712, 565443172,
    641887163, 718731033, 796025137, 873820972, 952171326, 1031130419, 1110754067, 1191099847,
    1272227273, 1354197987, 1437075955, 1520927688, 1605822471, 1691832610, 1779033704,
    1867504930, 1957329363, 2048594314, 2141391701, 2235818457, 2331976973, 2429975579,
    2529929081, 2631959344, 2736195935, 2842776839, 2951849240, 3063570399, 3178108618,
    3295644319, 3416371248, 3540497818, 3668248612, 3799866077, 3935612425, 4075771779,
    4220652607,
];

/// The first tangent threshold at or above the direction `y / x`, searching
/// upward from `k`: the angle of the vector `(x, y)` rounded to whole
/// degrees, for `0 <= y <= x`.
pub open spec fn octant_from(y: int, x: int, k: int) -> int
    decreases 45 - k,
{
    if k >= 45 {
        45
    } else if y * 0x100000000 < x * TAN_HALF_DEG[k] {
        k
    } else {
        octant_from(y, x, k + 1)
    }
}

/// The angle of the vector `(x, y)` in degrees rounded to nearest, for
/// `0 <= y <= x` (the first octant).
pub open spec fn octant_deg_spec(y: int, x: int) -> int {
    octant_from(y, x, 0)
}

/// `atan2(ns, ew)` in degrees rounded to nearest, by octant folding.
pub open spec fn atan2_deg_spec(ns: int, ew: int) -> int {
    let ay = if ns >= 0 {
        ns
    } else {
        -ns
    };
    let ax = if ew >= 0 {
        ew
    } else {
        -ew
    };
    let base = if ay <= ax {
        octant_deg_spec(ay, ax)
    } else {
        90 - octant_deg_spec(ax, ay)
    };
    if ew >= 0 && ns >= 0 {
        base
    } else if ew < 0 && ns >= 0 {
        180 - base
    } else if ew < 0 && ns < 0 {
        -(180 - base)
    } else {
        -base
    }
}

/// The track of a velocity vector, in degrees clockwise from north, rounded
/// to the nearest whole degree.
pub open spec fn vec_track_spec(ns: int, ew: int) -> int {
    (360 + 90 - atan2_deg_spec(ns, ew)) % 360
}

/// The rounded first-octant angle, by threshold search.
fn octant_deg(y: u64, x: u64) -> (r: u8)
    requires
        y <= 4100,
        x <= 4100,
    ensures
        r == octant_deg_spec(y as int, x as int),
        r <= 45,
{
    let mut k: u8 = 0;
    while k < 45
        invariant
            k <= 45,
            y <= 4100,
            x <= 4100,
            octant_deg_spec(y as int, x as int) == octant_from(y as int, x as int, k as int),
        decreases 45 - k,
    {
        proof {
            assert(TAN_HALF_DEG[k as int] <= 4220652607);
            assert(x * TAN_HALF_DEG[k as int] <= 4100 * 4220652607) by (nonlinear_arith)
                requires
                    x <= 4100 && TAN_HALF_DEG[k as int] <= 4220652607,
            ;
        }
        if y * 0x100000000 < x * TAN_HALF_DEG[k as usize] {
            return k;
        }
        k = k + 1;
    }
    45
}

/// `atan2` in rounded degrees, by octant folding.
fn atan2_deg(ns: i32, ew: i32) -> (r: i32)
    requires
        -4100 <= ns <= 4100,
        -4100 <= ew <= 4100,
    ensures
        r == atan2_deg_spec(ns as int, ew as int),
        -180 <= r <= 180,
{
    let ay: u64 = if ns >= 0 {
        ns as u64
    } else {
        (-ns) as u64
    };
    let ax: u64 = if ew >= 0 {
        ew as u64
    } else {
        (-ew) as u64
    };
    let base: i32 = if ay <= ax {
        octant_deg(ay, ax) as i32
    } else {
        90 - octant_deg(ax, ay) as i32
    };
    if ew >= 0 && ns >= 0 {
        base
    } else if ew < 0 && ns >= 0 {
        180 - base
    } else if ew < 0 && ns < 0 {
        -(180 - base)
    } else {
        -base
    }
}

/// The track byte pair of a velocity vector, in whole degrees.
fn vec_track(ns: i32, ew: i32) -> (r: u16)
    requires
        -4100 <= ns <= 4100,
        -4100 <= ew <= 4100,
    ensures
        r == vec_track_spec(ns as int, ew as int),
        r < 360,
{
    let m: i32 = atan2_deg(ns, ew);
    let t: i32 = (360 + 90 - m) % 360;
    t as u16
}

/// A base-40 callsign character; indices outside the alphabet are reduced
/// modulo its size.
pub open spec fn b40_char(i: int) -> char {
    CALLSIGN_BASE40[i % 40]
}

/// The character sequence with leading spaces removed.
pub open spec fn trim_start_sp(s: Seq<char>) -> Seq<char>
    decreases s.len(),
{
    if s.len() > 0 && s[0] == ' ' {
        trim_start_sp(s.skip(1))
    } else {
        s
    }
}

/// The character sequence with trailing spaces removed.
pub open spec fn trim_end_sp(s: Seq<char>) -> Seq<char>
    decreases s.len(),
{
    if s.len() > 0 && s.last() == ' ' {
        trim_end_sp(s.drop_last())
    } else {
        s
    }
}

/// The character sequence with leading and trailing spaces removed.
pub open spec fn trim_sp(s: Seq<char>) -> Seq<char> {
    trim_end_sp(trim_start_sp(s))
}

/// `sqrt` rounded to the nearest integer, as a function.
pub open spec fn rounded_sqrt(x: int) -> int {
    choose|r: int| is_rounded_sqrt(x, r)
}

/// The rounded square root is unique, so the executable search returns
/// exactly `rounded_sqrt`.
pub proof fn lemma_rounded_sqrt_unique(x: int, a: int, b: int)
    requires
        is_rounded_sqrt(x, a),
        is_rounded_sqrt(x, b),
    ensures
        a == b,
{
    if a < b {
        assert(false) by (nonlinear_arith)
            requires
                a >= 0 && b >= 0 && a < b && 4 * x < (2 * a + 1) * (2 * a + 1) && (b == 0 || (2 * b
                    - 1) * (2 * b - 1) <= 4 * x),
        ;
    }
    if b < a {
        assert(false) by (nonlinear_arith)
            requires
                a >= 0 && b >= 0 && b < a && 4 * x < (2 * b + 1) * (2 * b + 1) && (a == 0 || (2 * a
                    - 1) * (2 * a - 1) <= 4 * x),
        ;
    }
}

/// The address qualifier of a downlink payload.
pub open spec fn addr_qual_spec(q: int) -> AddressType {
    if q == 0 {
        AddressType::ADSBICAO
    } else if q == 1 {
        AddressType::ADSBOther
    } else if q == 2 {
        AddressType::TISBICAO
    } else if q == 3 {
        AddressType::TISBOther
    } else if q == 6 {
        AddressType::ADSRICAO
    } else {
        AddressType::Unknown
    }
}

/// The raw 23-bit latitude field.
pub open spec fn uat_raw_lat(b: Seq<u8>) -> int {
    b[4] * 32768 + b[5] * 128 + b[6] / 2
}

/// The raw 24-bit longitude field.
pub open spec fn uat_raw_lon(b: Seq<u8>) -> int {
    (b[6] % 2) * 8388608 + b[7] * 32768 + b[8] * 128 + b[9] / 2
}

/// The decoded position in semicircle units: absent when both raw fields
/// are zero-free, wrapped into signed ranges otherwise.
pub open spec fn uat_latlon_spec(b: Seq<u8>) -> Option<(i32, i32)> {
    let raw_lat = uat_raw_lat(b);
    let raw_lon = uat_raw_lon(b);
    if raw_lat != 0 && raw_lon != 0 {
        let lat = if raw_lat > 4194304 {
            raw_lat - 8388608
        } else {
            raw_lat
        };
        let lon = if raw_lon > 8388608 {
            raw_lon - 16777216
        } else {
            raw_lon
        };
        Some((lat as i32, lon as i32))
    } else {
        None
    }
}

/// The decoded altitude: absent when the raw field is zero, else in 25 ft
/// steps offset by 1000 ft, barometric or geometric per its type bit.
pub open spec fn uat_altitude_spec(b: Seq<u8>) -> Option<(i32, AltitudeType)> {
    let raw = b[10] * 16 + b[11] / 16;
    if raw != 0 {
        Some(
            (
                ((raw - 1) * 25 - 1000) as i32,
                if b[9] % 2 == 1 {
                    AltitudeType::GNSS
                } else {
                    AltitudeType::Baro
                },
            ),
        )
    } else {
        None
    }
}

/// The identification block of a long payload: callsign (trimmed, when the
/// callsign flag is set and nonblank), else the squawk (when the protocol
/// version allows), with the emitter category and the accuracy category.
pub open spec fn uat_ident_spec(b: Seq<u8>) -> (
    Option<Seq<char>>,
    Option<u16>,
    Option<u8>,
    Option<u8>,
) {
    let b40a = b[17] * 256 + b[18];
    let b40b = b[19] * 256 + b[20];
    let b40c = b[21] * 256 + b[22];
    let category = Some((b40a / 1600) as u8);
    let nacp = Some(((b[25] / 16) % 16) as u8);
    if (b[26] / 2) % 2 == 1 {
        let chars = seq![
            b40_char(b40a % 1600 / 40),
            b40_char(b40a % 40),
            b40_char(b40b / 1600),
            b40_char(b40b % 1600 / 40),
            b40_char(b40b % 40),
            b40_char(b40c / 1600),
            b40_char(b40c % 1600 / 40),
            b40_char(b40c % 40),
        ];
        let t = trim_sp(chars);
        if t.len() > 0 {
            (Some(t), None, category, nacp)
        } else {
            (None, None, category, nacp)
        }
    } else if (b[23] / 4) % 8 >= 2 {
        let sq = b40a % 1600 / 40 * 1000 + b40a % 40 * 100 + b40b / 1600 * 10 + b40b % 1600 / 40;
        (None, Some(sq as u16), category, nacp)
    } else {
        (None, None, category, nacp)
    }
}

/// The air/ground state vector of a downlink payload: the on-ground flag,
/// the ground speed, the track and the vertical speed.
pub open spec fn uat_motion_spec(b: Seq<u8>) -> (
    Option<bool>,
    Option<(u16, SpeedType)>,
    Option<(u16, HeadingType)>,
    Option<i16>,
) {
    let st = (b[12] / 64) % 4;
    if st == 0 || st == 1 {
        let raw_ns = (b[12] % 32) * 64 + b[13] / 4;
        let raw_ew = (b[13] % 4) * 512 + b[14] * 2 + b[15] / 128;
        let (speed, heading): (Option<(u16, SpeedType)>, Option<(u16, HeadingType)>) = if raw_ns
            % 1024 != 0 && raw_ew % 1024 != 0 {
            let ns0 = raw_ns % 1024 - 1;
            let ns1 = if raw_ns >= 1024 {
                -ns0
            } else {
                ns0
            };
            let ns = if st == 1 {
                4 * ns1
            } else {
                ns1
            };
            let ew0 = raw_ew % 1024 - 1;
            let ew1 = if raw_ew >= 1024 {
                -ew0
            } else {
                ew0
            };
            let ew = if st == 1 {
                4 * ew1
            } else {
                ew1
            };
            let spd = Some((rounded_sqrt(ns * ns + ew * ew) as u16, SpeedType::GS));
            let hdg = if ns != 0 || ew != 0 {
                Some((vec_track_spec(ns, ew) as u16, HeadingType::True))
            } else {
                None
            };
            (spd, hdg)
        } else {
            (None, None)
        };
        let raw_vs = (b[15] % 128) * 16 + b[16] / 16;
        let vs = if raw_vs % 512 != 0 {
            let v = (raw_vs % 512 - 1) * 64;
            Some(
                (
                if (raw_vs / 512) % 2 == 1 {
                    -v
                } else {
                    v
                }) as i16,
            )
        } else {
            None
        };
        (Some(false), speed, heading, vs)
    } else if st == 2 {
        let raw_gs = (b[12] % 32) * 64 + b[13] / 4;
        // the all-zero speed subfield is the not-available encoding, whatever
        // the supersonic bit above it says
        let speed = if raw_gs % 1024 != 0 {
            Some(((raw_gs % 1024 - 1) as u16, SpeedType::GS))
        } else {
            None
        };
        let raw_trk = (b[13] % 4) * 512 + b[14] * 2 + b[15] / 128;
        let hq = (raw_trk / 512) % 4;
        let heading = Some(
            (
                ((raw_trk % 512 * 45 + 32) / 64) as u16,
                if hq == 2 {
                    HeadingType::Mag
                } else {
                    HeadingType::True
                },
            ),
        );
        (Some(true), speed, heading, None)
    } else {
        (None, None, None, None)
    }
}

/// The traffic report decoded from a UAT downlink payload.
pub open spec fn adsb_downlink_spec(b: Seq<u8>) -> TrafficDataModel {
    let ptype = b[0] / 8;
    let ident = if ptype == 1 || ptype == 3 {
        uat_ident_spec(b)
    } else {
        (None, None, None, None)
    };
    let nic = (b[11] % 16) as u8;
    let addr0 = (b[1] * 65536 + b[2] * 256 + b[3]) as u32;
    let q = addr_qual_spec(b[0] as int % 8);
    let qual = if q == AddressType::TISBICAO && nic >= 7 && ident.2 is Some {
        AddressType::ADSRICAO
    } else {
        q
    };
    let motion = uat_motion_spec(b);
    TrafficDataModel {
        addr: (addr0, qual),
        altitude: uat_altitude_spec(b),
        gnss_delta: None,
        heading: motion.2,
        speed: motion.1,
        vs: motion.3,
        squawk: ident.1,
        callsign: ident.0,
        category: ident.2,
        lat_lon: uat_latlon_spec(b),
        nic: Some(nic),
        nacp: ident.3,
        on_ground: motion.0,
        source: TrafficSource::UAT,
    }
}

/// Build the string left after trimming spaces off both ends.
fn trimmed_string(v: &Vec<char>) -> (r: String)
    ensures
        r@ == trim_sp(v@),
{
    proof {
        assert(v@.skip(0) =~= v@);
    }
    let mut start: usize = 0;
    while start < v.len() && v[start] == ' '
        invariant
            start <= v@.len(),
            trim_start_sp(v@) == trim_start_sp(v@.skip(start as int)),
        decreases v@.len() - start,
    {
        proof {
            assert(v@.skip(start as int)[0] == v@[start as int]);
            assert(v@.skip(start as int).skip(1) =~= v@.skip(start + 1));
        }
        start = start + 1;
    }
    proof {
        if start < v@.len() {
            assert(v@.skip(start as int)[0] == v@[start as int]);
        } else {
            assert(v@.skip(start as int) =~= Seq::<char>::empty());
        }
        assert(trim_start_sp(v@) == v@.skip(start as int));
    }
    let mut end: usize = v.len();
    while end > start && v[end - 1] == ' '
        invariant
            start <= end <= v@.len(),
            trim_end_sp(v@.skip(start as int)) == trim_end_sp(
                v@.subrange(start as int, end as int),
            ),
        decreases end,
    {
        proof {
            assert(v@.subrange(start as int, end as int).drop_last() =~= v@.subrange(
                start as int,
                end - 1,
            ));
            assert(v@.subrange(start as int, end as int).last() == v@[end - 1]);
        }
        end = end - 1;
    }
    proof {
        if end > start {
            assert(v@.subrange(start as int, end as int).last() == v@[end - 1]);
        } else {
            assert(v@.subrange(start as int, end as int) =~= Seq::<char>::empty());
        }
        assert(trim_end_sp(v@.subrange(start as int, end as int)) == v@.subrange(
            start as int,
            end as int,
        ));
    }
    let mut r = String::new();
    let mut k: usize = start;
    while k < end
        invariant
            start <= k <= end <= v@.len(),
            r@ == v@.subrange(start as int, k as int),
        decreases end - k,
    {
        crate::util::push_char(&mut r, v[k]);
        proof {
            assert(v@.subrange(start as int, k + 1) =~= v@.subrange(start as int, k as int).push(
                v@[k as int],
            ));
        }
        k = k + 1;
    }
    r
}

/// One base-40 callsign character.
fn b40_char_exec(i: u32) -> (r: char)
    ensures
        r == b40_char(i as int),
{
    CALLSIGN_BASE40[(i % 40) as usize]
}

/// Decode the identification block of a long payload.
fn uat_ident(buf: &Vec<u8>) -> (r: (Option<String>, Option<u16>, Option<u8>, Option<u8>))
    requires
        buf@.len() >= 27,
    ensures
        (r.0.deep_view(), r.1, r.2, r.3) == uat_ident_spec(buf@),
{
    let b40a: u32 = (buf[17] as u32) * 256 + (buf[18] as u32);
    let b40b: u32 = (buf[19] as u32) * 256 + (buf[20] as u32);
    let b40c: u32 = (buf[21] as u32) * 256 + (buf[22] as u32);
    let category: Option<u8> = Some((b40a / 1600) as u8);
    let nacp: Option<u8> = Some((buf[25] / 16) % 16);
    if (buf[26] / 2) % 2 == 1 {
        let mut v: Vec<char> = Vec::new();
        v.push(b40_char_exec(b40a % 1600 / 40));
        v.push(b40_char_exec(b40a % 40));
        v.push(b40_char_exec(b40b / 1600));
        v.push(b40_char_exec(b40b % 1600 / 40));
        v.push(b40_char_exec(b40b % 40));
        v.push(b40_char_exec(b40c / 1600));
        v.push(b40_char_exec(b40c % 1600 / 40));
        v.push(b40_char_exec(b40c % 40));
        let t = trimmed_string(&v);
        proof {
            assert(v@ =~= seq![
                b40_char(b40a as int % 1600 / 40),
                b40_char(b40a as int % 40),
                b40_char(b40b as int / 1600),
                b40_char(b40b as int % 1600 / 40),
                b40_char(b40b as int % 40),
                b40_char(b40c as int / 1600),
                b40_char(b40c as int % 1600 / 40),
                b40_char(b40c as int % 40),
            ]);
        }
        if !t.as_str().is_empty() {
            (Some(t), None, category, nacp)
        } else {
            (None, None, category, nacp)
        }
    } else if (buf[23] / 4) % 8 >= 2 {
        let sq: u32 = b40a % 1600 / 40 * 1000 + b40a % 40 * 100 + b40b / 1600 * 10 + b40b % 1600
            / 40;
        (None, Some(sq as u16), category, nacp)
    } else {
        (None, None, category, nacp)
    }
}

/// Decode the state-vector motion block.
fn uat_motion(buf: &Vec<u8>) -> (r: (
    Option<bool>,
    Option<(u16, SpeedType)>,
    Option<(u16, HeadingType)>,
    Option<i16>,
))
    requires
        buf@.len() >= 18,
    ensures
        r == uat_motion_spec(buf@),
{
    let st: u8 = (buf[12] / 64) % 4;
    if st == 0 || st == 1 {
        let raw_ns: u32 = ((buf[12] % 32) as u32) * 64 + (buf[13] as u32) / 4;
        let raw_ew: u32 = ((buf[13] % 4) as u32) * 512 + (buf[14] as u32) * 2 + (buf[15] as u32)
            / 128;
        let mut speed: Option<(u16, SpeedType)> = None;
        let mut heading: Option<(u16, HeadingType)> = None;
        if raw_ns % 1024 != 0 && raw_ew % 1024 != 0 {
            let ns0: i32 = (raw_ns % 1024) as i32 - 1;
            let ns1: i32 = if raw_ns >= 1024 {
                -ns0
            } else {
                ns0
            };
            let ns: i32 = if st == 1 {
                4 * ns1
            } else {
                ns1
            };
            let ew0: i32 = (raw_ew % 1024) as i32 - 1;
            let ew1: i32 = if raw_ew >= 1024 {
                -ew0
            } else {
                ew0
            };
            let ew: i32 = if st == 1 {
                4 * ew1
            } else {
                ew1
            };
            let a: u64 = if ns >= 0 {
                ns as u64
            } else {
                (-ns) as u64
            };
            let c: u64 = if ew >= 0 {
                ew as u64
            } else {
                (-ew) as u64
            };
            proof {
                assert(a as int * a as int == ns as int * ns as int && a as int * a as int <= 4100
                    * 4100) by (nonlinear_arith)
                    requires
                        (a as int == ns as int || a as int == -(ns as int)) && -4100 <= ns as int
                            <= 4100 && a as int >= 0,
                ;
                assert(c as int * c as int == ew as int * ew as int && c as int * c as int <= 4100
                    * 4100) by (nonlinear_arith)
                    requires
                        (c as int == ew as int || c as int == -(ew as int)) && -4100 <= ew as int
                            <= 4100 && c as int >= 0,
                ;
            }
            let sq: u64 = a * a + c * c;
            let root: u64 = sqrt_round(sq);
            proof {
                lemma_rounded_sqrt_unique(
                    sq as int,
                    root as int,
                    rounded_sqrt(ns as int * ns as int + ew as int * ew as int),
                );
            }
            speed = Some((root as u16, SpeedType::GS));
            if ns != 0 || ew != 0 {
                heading = Some((vec_track(ns, ew), HeadingType::True));
            }
        }
        let raw_vs: u32 = ((buf[15] % 128) as u32) * 16 + (buf[16] as u32) / 16;
        let vs: Option<i16> = if raw_vs % 512 != 0 {
            let v: i32 = ((raw_vs % 512) as i32 - 1) * 64;
            Some(
                (
                if (raw_vs / 512) % 2 == 1 {
                    -v
                } else {
                    v
                }) as i16,
            )
        } else {
            None
        };
        (Some(false), speed, heading, vs)
    } else if st == 2 {
        let raw_gs: u32 = ((buf[12] % 32) as u32) * 64 + (buf[13] as u32) / 4;
        let speed: Option<(u16, SpeedType)> = if raw_gs % 1024 != 0 {
            Some(((raw_gs % 1024 - 1) as u16, SpeedType::GS))
        } else {
            None
        };
        let raw_trk: u32 = ((buf[13] % 4) as u32) * 512 + (buf[14] as u32) * 2 + (buf[15] as u32)
            / 128;
        let hq: u32 = (raw_trk / 512) % 4;
        let heading: Option<(u16, HeadingType)> = Some(
            (
                ((raw_trk % 512 * 45 + 32) / 64) as u16,
                if hq == 2 {
                    HeadingType::Mag
                } else {
                    HeadingType::True
                },
            ),
        );
        (Some(true), speed, heading, None)
    } else {
        (None, None, None, None)
    }
}

/// Decode one UAT ADS-B downlink payload into a traffic report.
pub fn parse_adsb_downlink(buf: &Vec<u8>) -> (r: TrafficData)
    requires
        buf@.len() >= 18,
        buf@[0] / 8 == 1 || buf@[0] / 8 == 3 ==> buf@.len() >= 27,
    ensures
        r.deep_view() == adsb_downlink_spec(buf@),
{
    let ptype: u8 = buf[0] / 8;
    let ident: (Option<String>, Option<u16>, Option<u8>, Option<u8>) = if ptype == 1 || ptype == 3 {
        uat_ident(buf)
    } else {
        (None, None, None, None)
    };
    let nic: u8 = buf[11] % 16;
    let addr0: u32 = (buf[1] as u32) * 65536 + (buf[2] as u32) * 256 + (buf[3] as u32);
    let q: AddressType = match buf[0] % 8 {
        0 => AddressType::ADSBICAO,
        1 => AddressType::ADSBOther,
        2 => AddressType::TISBICAO,
        3 => AddressType::TISBOther,
        6 => AddressType::ADSRICAO,
        _ => AddressType::Unknown,
    };
    let qual: AddressType = if q == AddressType::TISBICAO && nic >= 7 && ident.2.is_some() {
        AddressType::ADSRICAO
    } else {
        q
    };

    let raw_lat: u32 = (buf[4] as u32) * 32768 + (buf[5] as u32) * 128 + (buf[6] as u32) / 2;
    let raw_lon: u32 = ((buf[6] % 2) as u32) * 8388608 + (buf[7] as u32) * 32768 + (buf[8] as u32)
        * 128 + (buf[9] as u32) / 2;
    let lat_lon: Option<(i32, i32)> = if raw_lat != 0 && raw_lon != 0 {
        let lat: i32 = if raw_lat > 4194304 {
            raw_lat as i32 - 8388608
        } else {
            raw_lat as i32
        };
        let lon: i32 = if raw_lon > 8388608 {
            raw_lon as i32 - 16777216
        } else {
            raw_lon as i32
        };
        Some((lat, lon))
    } else {
        None
    };

    let raw_alt: u32 = (buf[10] as u32) * 16 + (buf[11] as u32) / 16;
    let altitude: Option<(i32, AltitudeType)> = if raw_alt != 0 {
        Some(
            (
                (raw_alt as i32 - 1) * 25 - 1000,
                if buf[9] % 2 == 1 {
                    AltitudeType::GNSS
                } else {
                    AltitudeType::Baro
                },
            ),
        )
    } else {
        None
    };

    let motion = uat_motion(buf);

    let r = TrafficData {
        addr: (addr0, qual),
        altitude,
        gnss_delta: None,
        heading: motion.2,
        speed: motion.1,
        vs: motion.3,
        squawk: ident.1,
        callsign: ident.0,
        category: ident.2,
        lat_lon,
        nic: Some(nic),
        nacp: ident.3,
        on_ground: motion.0,
        source: TrafficSource::UAT,
    };
    r
}

} // verus!
