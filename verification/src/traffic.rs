//! The traffic situation: a keyed, aging collection of aircraft targets that
//! merges redundant ADS-B / ADS-R / TIS-B reports with source precedence,
//! freshness windows and periodic cull and emit, plus the ICAO-address to
//! US tail-number derivation.

use crate::handle::PushableHandle;
use crate::report::{Report, ReportModel};
use crate::sensor::SensorData;
use crate::util::{run_every_ticks, ticks_for};
use crate::views::dvs;
use vstd::prelude::*;

verus! {

/// Lock out ADS-R and TIS-B updates while direct ADS-B data is younger than
/// this many milliseconds.
pub const ADS_B_LOCKOUT_MS: u64 = 2000;

/// Drop targets whose last report is at least this many milliseconds old.
pub const MAX_STALE_MS: u64 = 60000;

/// A timestamped field is fresh while it is younger than this many
/// milliseconds (a whole-second comparison against six seconds).
pub const FRESH_WINDOW_MS: u64 = 7000;

#[derive(Debug, PartialEq, Eq, Structural, Copy, Clone)]
pub enum AddressType {
    ADSBICAO,
    ADSBOther,
    ADSRICAO,
    ADSROther,
    TISBICAO,
    TISBOther,
    Unknown,
}

#[derive(Debug, PartialEq, Eq, Structural, Copy, Clone)]
pub enum SpeedType {
    GS,
    IAS,
    TAS,
}

#[derive(Debug, PartialEq, Eq, Structural, Copy, Clone)]
pub enum AltitudeType {
    Baro,
    GNSS,
}

#[derive(Debug, PartialEq, Eq, Structural, Copy, Clone)]
pub enum HeadingType {
    True,
    Mag,
}

#[derive(Debug, PartialEq, Eq, Structural, Copy, Clone)]
pub enum TrafficSource {
    UAT,
    ES,
}

/// A decoded per-message traffic report from a sensor.
///
/// Latitude and longitude are in GDL 90 semicircle units of 180 / 2^23
/// degrees; altitude in ft; heading in degrees; speed in knots; vertical
/// speed in ft/min.
#[derive(Debug, PartialEq)]
pub struct TrafficData {
    pub addr: (u32, AddressType),
    pub altitude: Option<(i32, AltitudeType)>,
    pub gnss_delta: Option<i32>,
    pub heading: Option<(u16, HeadingType)>,
    pub speed: Option<(u16, SpeedType)>,
    pub vs: Option<i16>,
    pub squawk: Option<u16>,
    pub callsign: Option<String>,
    pub category: Option<u8>,
    pub lat_lon: Option<(i32, i32)>,
    pub nic: Option<u8>,
    pub nacp: Option<u8>,
    pub on_ground: Option<bool>,
    pub source: TrafficSource,
}

/// The abstract value of a `TrafficData`.
pub ghost struct TrafficDataModel {
    pub addr: (u32, AddressType),
    pub altitude: Option<(i32, AltitudeType)>,
    pub gnss_delta: Option<i32>,
    pub heading: Option<(u16, HeadingType)>,
    pub speed: Option<(u16, SpeedType)>,
    pub vs: Option<i16>,
    pub squawk: Option<u16>,
    pub callsign: Option<Seq<char>>,
    pub category: Option<u8>,
    pub lat_lon: Option<(i32, i32)>,
    pub nic: Option<u8>,
    pub nacp: Option<u8>,
    pub on_ground: Option<bool>,
    pub source: TrafficSource,
}

impl DeepView for TrafficData {
    type V = TrafficDataModel;

    open spec fn deep_view(&self) -> TrafficDataModel {
        TrafficDataModel {
            addr: self.addr,
            altitude: self.altitude,
            gnss_delta: self.gnss_delta,
            heading: self.heading,
            speed: self.speed,
            vs: self.vs,
            squawk: self.squawk,
            callsign: self.callsign.deep_view(),
            category: self.category,
            lat_lon: self.lat_lon,
            nic: self.nic,
            nacp: self.nacp,
            on_ground: self.on_ground,
            source: self.source,
        }
    }
}

impl Clone for TrafficData {
    fn clone(&self) -> (r: Self)
        ensures
            r == *self,
    {
        TrafficData {
            addr: self.addr,
            altitude: self.altitude,
            gnss_delta: self.gnss_delta,
            heading: self.heading,
            speed: self.speed,
            vs: self.vs,
            squawk: self.squawk,
            callsign: match &self.callsign {
                Some(s) => Some(s.clone()),
                None => None,
            },
            category: self.category,
            lat_lon: self.lat_lon,
            nic: self.nic,
            nacp: self.nacp,
            on_ground: self.on_ground,
            source: self.source,
        }
    }
}

/// A tracked traffic target.  Volatile fields carry the monotonic timestamp
/// (milliseconds) of their last update; `last_seen` is the monotonic
/// timestamp of the last report for this target.
#[derive(Debug, PartialEq)]
pub struct Target {
    pub addr: (u32, AddressType),
    pub altitude: Option<(i32, AltitudeType, u64)>,
    pub gnss_delta: Option<i32>,
    pub heading: Option<(u16, HeadingType, u64)>,
    pub speed: Option<(u16, SpeedType, u64)>,
    pub vs: Option<(i16, u64)>,
    pub squawk: Option<u16>,
    pub callsign: Option<String>,
    pub category: Option<u8>,
    pub lat_lon: Option<((i32, i32), u64)>,
    pub nic: Option<u8>,
    pub nacp: Option<u8>,
    pub on_ground: Option<bool>,
    pub last_seen: u64,
    pub source: TrafficSource,
}

/// The abstract value of a `Target`.
pub ghost struct TargetModel {
    pub addr: (u32, AddressType),
    pub altitude: Option<(i32, AltitudeType, u64)>,
    pub gnss_delta: Option<i32>,
    pub heading: Option<(u16, HeadingType, u64)>,
    pub speed: Option<(u16, SpeedType, u64)>,
    pub vs: Option<(i16, u64)>,
    pub squawk: Option<u16>,
    pub callsign: Option<Seq<char>>,
    pub category: Option<u8>,
    pub lat_lon: Option<((i32, i32), u64)>,
    pub nic: Option<u8>,
    pub nacp: Option<u8>,
    pub on_ground: Option<bool>,
    pub last_seen: u64,
    pub source: TrafficSource,
}

impl DeepView for Target {
    type V = TargetModel;

    open spec fn deep_view(&self) -> TargetModel {
        TargetModel {
            addr: self.addr,
            altitude: self.altitude,
            gnss_delta: self.gnss_delta,
            heading: self.heading,
            speed: self.speed,
            vs: self.vs,
            squawk: self.squawk,
            callsign: self.callsign.deep_view(),
            category: self.category,
            lat_lon: self.lat_lon,
            nic: self.nic,
            nacp: self.nacp,
            on_ground: self.on_ground,
            last_seen: self.last_seen,
            source: self.source,
        }
    }
}

impl Clone for Target {
    fn clone(&self) -> (r: Self)
        ensures
            r == *self,
    {
        Target {
            addr: self.addr,
            altitude: self.altitude,
            gnss_delta: self.gnss_delta,
            heading: self.heading,
            speed: self.speed,
            vs: self.vs,
            squawk: self.squawk,
            callsign: match &self.callsign {
                Some(s) => Some(s.clone()),
                None => None,
            },
            category: self.category,
            lat_lon: self.lat_lon,
            nic: self.nic,
            nacp: self.nacp,
            on_ground: self.on_ground,
            last_seen: self.last_seen,
            source: self.source,
        }
    }
}

/// The model of a target as `Target::new` builds it.
pub open spec fn new_target_model(
    addr: (u32, AddressType),
    clock: u64,
    source: TrafficSource,
    callsign: Option<Seq<char>>,
) -> TargetModel {
    TargetModel {
        addr,
        altitude: None,
        gnss_delta: None,
        heading: None,
        speed: None,
        vs: None,
        squawk: None,
        callsign,
        category: None,
        lat_lon: None,
        nic: None,
        nacp: None,
        on_ground: None,
        last_seen: clock,
        source,
    }
}

/// Whether any volatile field of `t` was updated within the freshness
/// window before `now`.
pub open spec fn is_fresh_model(t: TargetModel, now: u64) -> bool {
    ||| (t.altitude matches Some((_, _, i)) && now - i < FRESH_WINDOW_MS)
    ||| (t.heading matches Some((_, _, i)) && now - i < FRESH_WINDOW_MS)
    ||| (t.speed matches Some((_, _, i)) && now - i < FRESH_WINDOW_MS)
    ||| (t.lat_lon matches Some((_, i)) && now - i < FRESH_WINDOW_MS)
}

impl Target {
    pub fn new(
        addr: (u32, AddressType),
        clock: u64,
        source: TrafficSource,
        callsign: Option<String>,
    ) -> (r: Self)
        ensures
            r.deep_view() == new_target_model(addr, clock, source, callsign.deep_view()),
    {
        Target {
            addr,
            altitude: None,
            gnss_delta: None,
            heading: None,
            speed: None,
            vs: None,
            squawk: None,
            callsign,
            category: None,
            lat_lon: None,
            nic: None,
            nacp: None,
            on_ground: None,
            last_seen: clock,
            source: source,
        }
    }

    /// Whether this target is worth passing to the protocol layer: some
    /// volatile field was updated within the freshness window.
    pub fn is_fresh(&self, now: u64) -> (r: bool)
        requires
            target_wf(self.deep_view(), now),
        ensures
            r == is_fresh_model(self.deep_view(), now),
    {
        if let Some((_, _, i)) = self.altitude {
            if now - i < FRESH_WINDOW_MS {
                return true;
            }
        }
        if let Some((_, _, i)) = self.heading {
            if now - i < FRESH_WINDOW_MS {
                return true;
            }
        }
        if let Some((_, _, i)) = self.speed {
            if now - i < FRESH_WINDOW_MS {
                return true;
            }
        }
        if let Some((_, i)) = self.lat_lon {
            if now - i < FRESH_WINDOW_MS {
                return true;
            }
        }
        false
    }
}

/// All timestamps of a target lie at or before `now`, so that ages can be
/// computed without underflow.
pub open spec fn target_wf(t: TargetModel, now: u64) -> bool {
    &&& t.last_seen <= now
    &&& (t.altitude matches Some((_, _, i)) ==> i <= now)
    &&& (t.heading matches Some((_, _, i)) ==> i <= now)
    &&& (t.speed matches Some((_, _, i)) ==> i <= now)
    &&& (t.vs matches Some((_, i)) ==> i <= now)
    &&& (t.lat_lon matches Some((_, i)) ==> i <= now)
}

/// The restricted tail-number alphabet: no I and no O.
pub const LIMITED_ALPHABET: [char; 24] = [
    'A',
    'B',
    'C',
    'D',
    'E',
    'F',
    'G',
    'H',
    'J',
    'K',
    'L',
    'M',
    'N',
    'P',
    'Q',
    'R',
    'S',
    'T',
    'U',
    'V',
    'W',
    'X',
    'Y',
    'Z',
];

pub const DIGITS: [char; 10] = ['0', '1', '2', '3', '4', '5', '6', '7', '8', '9'];

/// The up-to-two trailing letters of a tail number, encoded base 25 over the
/// restricted alphabet; `rem` is at most 600.
pub open spec fn n_letters_spec(rem: int) -> Seq<char>
    recommends
        0 <= rem <= 600,
{
    if rem == 0 {
        Seq::<char>::empty()
    } else {
        let r = rem - 1;
        let first = seq![LIMITED_ALPHABET[r / 25]];
        if r % 25 == 0 {
            first
        } else {
            first.push(LIMITED_ALPHABET[r % 25 - 1])
        }
    }
}

/// Append the trailing letters for `rem` to a partial registration.
fn n_letters(rem: u32, reg: &mut String)
    requires
        rem <= 600,
    ensures
        final (reg)@ == old(reg)@ + n_letters_spec(rem as int),
{
    if rem == 0 {
        proof {
            assert(old(reg)@ + n_letters_spec(rem as int) =~= old(reg)@);
        }
        return ;
    }
    let r = rem - 1;
    crate::util::push_char(reg, LIMITED_ALPHABET[(r / 25) as usize]);
    let r2 = r % 25;
    if r2 == 0 {
        proof {
            assert(reg@ =~= old(reg)@ + n_letters_spec(rem as int));
        }
        return ;
    }
    crate::util::push_char(reg, LIMITED_ALPHABET[(r2 - 1) as usize]);
    proof {
        assert(reg@ =~= old(reg)@ + n_letters_spec(rem as int));
    }
}

/// The tail number derived from an ICAO address, as a character sequence:
/// `None` outside the US block, the string `US-MIL` above the civil range,
/// and the base-10 / base-25 mixed-radix registration inside it.
pub open spec fn tail_spec(icao: u32) -> Option<Seq<char>> {
    if 0xA00001 <= icao <= 0xAFFFFF {
        if icao > 0xADF7C7 {
            Some("US-MIL"@)
        } else {
            let o1 = icao - 0xA00001;
            let head = seq!['N', DIGITS[o1 / 101711 + 1]];
            let r1 = o1 % 101711;
            if r1 <= 600 {
                Some(head + n_letters_spec(r1))
            } else {
                let o2 = r1 - 601;
                let head2 = head.push(DIGITS[o2 / 10111]);
                let r2 = o2 % 10111;
                if r2 <= 600 {
                    Some(head2 + n_letters_spec(r2))
                } else {
                    let o3 = r2 - 601;
                    let head3 = head2.push(DIGITS[o3 / 951]);
                    let r3 = o3 % 951;
                    if r3 <= 600 {
                        Some(head3 + n_letters_spec(r3))
                    } else {
                        let o4 = r3 - 601;
                        let head4 = head3.push(DIGITS[o4 / 35]);
                        let r4 = o4 % 35;
                        if r4 <= 24 {
                            if r4 == 0 {
                                Some(head4)
                            } else {
                                Some(head4.push(LIMITED_ALPHABET[r4 - 1]))
                            }
                        } else {
                            Some(head4.push(DIGITS[r4 - 25]))
                        }
                    }
                }
            }
        }
    } else {
        None
    }
}

/// Derive the US tail number (registration) from a 24-bit ICAO address.
pub fn icao_to_tail(icao: u32) -> (r: Option<String>)
    ensures
        r.deep_view() == tail_spec(icao),
{
    if 0xA00001 <= icao && icao <= 0xAFFFFF {
        if icao > 0xADF7C7 {
            Some(<String as vstd::string::StringExecFns>::from_str("US-MIL"))
        } else {
            let mut res = String::new();
            crate::util::push_char(&mut res, 'N');

            let o1: u32 = icao - 0xA00001;
            crate::util::push_char(&mut res, DIGITS[(o1 / 101711 + 1) as usize]);
            let r1: u32 = o1 % 101711;
            if r1 <= 600 {
                n_letters(r1, &mut res);
                proof {
                    assert(res@ =~= tail_spec(icao).unwrap());
                }
                return Some(res);
            }

            let o2: u32 = r1 - 601;
            crate::util::push_char(&mut res, DIGITS[(o2 / 10111) as usize]);
            let r2: u32 = o2 % 10111;
            if r2 <= 600 {
                n_letters(r2, &mut res);
                proof {
                    assert(res@ =~= tail_spec(icao).unwrap());
                }
                return Some(res);
            }

            let o3: u32 = r2 - 601;
            crate::util::push_char(&mut res, DIGITS[(o3 / 951) as usize]);
            let r3: u32 = o3 % 951;
            if r3 <= 600 {
                n_letters(r3, &mut res);
                proof {
                    assert(res@ =~= tail_spec(icao).unwrap());
                }
                return Some(res);
            }

            let o4: u32 = r3 - 601;
            crate::util::push_char(&mut res, DIGITS[(o4 / 35) as usize]);
            let r4: u32 = o4 % 35;
            if r4 <= 24 {
                if r4 != 0 {
                    crate::util::push_char(&mut res, LIMITED_ALPHABET[(r4 - 1) as usize]);
                }
                proof {
                    assert(res@ =~= tail_spec(icao).unwrap());
                }
                return Some(res);
            }

            crate::util::push_char(&mut res, DIGITS[(r4 - 25) as usize]);
            proof {
                assert(res@ =~= tail_spec(icao).unwrap());
            }
            Some(res)
        }
    } else {
        None
    }
}

/// The ICAO-to-tail mapping is total on the US civil block, is `US-MIL` on
/// the military block above it, and is absent elsewhere.
pub proof fn lemma_tail_totality(icao: u32)
    ensures
        0xA00001 <= icao <= 0xADF7C7 ==> tail_spec(icao) is Some && tail_spec(
            icao,
        ).unwrap().len() >= 2 && tail_spec(icao).unwrap()[0] == 'N',
        0xADF7C7 < icao <= 0xAFFFFF ==> tail_spec(icao) == Some("US-MIL"@),
        (icao < 0xA00001 || icao > 0xAFFFFF) ==> tail_spec(icao) is None,
{
}

/// Index of the target with the given ICAO address, or -1.
pub open spec fn find_idx(s: Seq<TargetModel>, icao: u32) -> int
    decreases s.len(),
{
    if s.len() == 0 {
        -1
    } else if s[0].addr.0 == icao {
        0
    } else {
        let r = find_idx(s.skip(1), icao);
        if r < 0 {
            -1
        } else {
            r + 1
        }
    }
}

pub proof fn lemma_find_idx(s: Seq<TargetModel>, icao: u32)
    ensures
        find_idx(s, icao) == -1 ==> forall|j: int|
            0 <= j < s.len() ==> (#[trigger] s[j]).addr.0 != icao,
        find_idx(s, icao) >= 0 ==> 0 <= find_idx(s, icao) < s.len() && s[find_idx(
            s,
            icao,
        )].addr.0 == icao && forall|j: int| 0 <= j < find_idx(s, icao) ==> (#[trigger] s[j]).addr.0
            != icao,
    decreases s.len(),
{
    if s.len() == 0 {
    } else if s[0].addr.0 == icao {
    } else {
        lemma_find_idx(s.skip(1), icao);
        assert forall|j: int| 1 <= j < s.len() implies (#[trigger] s[j]).addr.0 == s.skip(1)[j
            - 1].addr.0 by {
            assert(s.skip(1)[j - 1] == s[j]);
        }
    }
}

/// The first index with a matching address determines `find_idx`.
pub proof fn lemma_find_idx_at(s: Seq<TargetModel>, icao: u32, k: int)
    requires
        0 <= k < s.len(),
        s[k].addr.0 == icao,
        forall|j: int| 0 <= j < k ==> (#[trigger] s[j]).addr.0 != icao,
    ensures
        find_idx(s, icao) == k,
    decreases s.len(),
{
    if k == 0 {
    } else {
        assert forall|j: int| 0 <= j < k - 1 implies (#[trigger] s.skip(1)[j]).addr.0 != icao by {
            assert(s.skip(1)[j] == s[j + 1]);
        }
        lemma_find_idx_at(s.skip(1), icao, k - 1);
        assert(s.skip(1)[k - 1] == s[k]);
    }
}

/// Whether direct ADS-B data on `cur` is recent enough to lock out an
/// incoming rebroadcast or ground-derived report `t`.
pub open spec fn lockout_model(cur: TargetModel, t: TrafficDataModel, now: u64) -> bool {
    &&& (cur.addr.1 == AddressType::ADSBICAO || cur.addr.1 == AddressType::ADSBOther)
    &&& !(t.addr.1 == AddressType::ADSBICAO || t.addr.1 == AddressType::ADSBOther)
    &&& now - cur.last_seen < ADS_B_LOCKOUT_MS
}

/// Merge one report into a target: present fields overwrite and are stamped
/// `now`; absent fields keep their previous value and stamp.
pub open spec fn apply_report(cur: TargetModel, t: TrafficDataModel, now: u64) -> TargetModel {
    TargetModel {
        addr: t.addr,
        altitude: match t.altitude {
            Some((a, ty)) => Some((a, ty, now)),
            None => cur.altitude,
        },
        gnss_delta: match t.gnss_delta {
            Some(d) => Some(d),
            None => cur.gnss_delta,
        },
        heading: match t.heading {
            Some((h, ty)) => Some((h, ty, now)),
            None => cur.heading,
        },
        speed: match t.speed {
            Some((v, ty)) => Some((v, ty, now)),
            None => cur.speed,
        },
        vs: match t.vs {
            Some(v) => Some((v, now)),
            None => cur.vs,
        },
        squawk: match t.squawk {
            Some(q) => Some(q),
            None => cur.squawk,
        },
        callsign: match t.callsign {
            Some(c) => Some(c),
            None => cur.callsign,
        },
        category: match t.category {
            Some(c) => Some(c),
            None => cur.category,
        },
        lat_lon: match t.lat_lon {
            Some(ll) => Some((ll, now)),
            None => cur.lat_lon,
        },
        nic: match t.nic {
            Some(n) => Some(n),
            None => cur.nic,
        },
        nacp: match t.nacp {
            Some(n) => Some(n),
            None => cur.nacp,
        },
        on_ground: match t.on_ground {
            Some(g) => Some(g),
            None => cur.on_ground,
        },
        last_seen: now,
        source: t.source,
    }
}

/// The ADS-B lockout law: while direct ADS-B data on a tracked target is
/// less than two seconds old, a rebroadcast or ground-derived report for the
/// same address changes nothing at all; once it is older, the report is
/// merged as any other.
pub proof fn lemma_adsb_lockout(s: Seq<TargetModel>, t: TrafficDataModel, now: u64)
    requires
        find_idx(s, t.addr.0) >= 0,
    ensures
        ({
            let cur = s[find_idx(s, t.addr.0)];
            &&& lockout_model(cur, t, now) ==> traffic_update(s, t, now) == s
            &&& !lockout_model(cur, t, now) ==> traffic_update(s, t, now) == s.update(
                find_idx(s, t.addr.0),
                apply_report(cur, t, now),
            )
        }),
{
}

/// One traffic report folded into the situation: find or create the target,
/// honour the ADS-B lockout, otherwise merge.
pub open spec fn traffic_update(s: Seq<TargetModel>, t: TrafficDataModel, now: u64) -> Seq<
    TargetModel,
> {
    let i = find_idx(s, t.addr.0);
    if i < 0 {
        s.push(apply_report(new_target_model(t.addr, now, t.source, tail_spec(t.addr.0)), t, now))
    } else if lockout_model(s[i], t, now) {
        s
    } else {
        s.update(i, apply_report(s[i], t, now))
    }
}

/// A whole tick's sensor items folded into the situation.
pub open spec fn traffic_fold(s: Seq<TargetModel>, items: Seq<SensorData>, now: u64) -> Seq<
    TargetModel,
>
    decreases items.len(),
{
    if items.len() == 0 {
        s
    } else {
        let prev = traffic_fold(s, items.drop_last(), now);
        match items.last() {
            SensorData::Traffic(t) => traffic_update(prev, t.deep_view(), now),
            _ => prev,
        }
    }
}

/// The situation with stale targets dropped.
pub open spec fn cleanup_filter(s: Seq<TargetModel>, now: u64) -> Seq<TargetModel>
    decreases s.len(),
{
    if s.len() == 0 {
        s
    } else {
        let rest = cleanup_filter(s.drop_last(), now);
        if now - s.last().last_seen < MAX_STALE_MS {
            rest.push(s.last())
        } else {
            rest
        }
    }
}

/// The reports emitted for every fresh target, in situation order.
pub open spec fn fresh_reports(s: Seq<TargetModel>, now: u64) -> Seq<ReportModel>
    decreases s.len(),
{
    if s.len() == 0 {
        Seq::<ReportModel>::empty()
    } else {
        let rest = fresh_reports(s.drop_last(), now);
        if is_fresh_model(s.last(), now) {
            rest.push(ReportModel::Traffic(s.last()))
        } else {
            rest
        }
    }
}

/// Well-formed situation: timestamps at or before `now` and one entry per
/// ICAO address.
pub open spec fn sit_wf(s: Seq<TargetModel>, now: u64) -> bool {
    &&& forall|i: int| 0 <= i < s.len() ==> target_wf(#[trigger] s[i], now)
    &&& forall|i: int, j: int|
        0 <= i < j < s.len() ==> (#[trigger] s[i]).addr.0 != (#[trigger] s[j]).addr.0
}

pub proof fn lemma_update_wf(s: Seq<TargetModel>, t: TrafficDataModel, now: u64)
    requires
        sit_wf(s, now),
    ensures
        sit_wf(traffic_update(s, t, now), now),
{
    lemma_find_idx(s, t.addr.0);
    let s2 = traffic_update(s, t, now);
    let i = find_idx(s, t.addr.0);
    if i < 0 {
        assert forall|a: int, b: int| 0 <= a < b < s2.len() implies (#[trigger] s2[a]).addr.0 != (
        #[trigger] s2[b]).addr.0 by {
            if b == s2.len() - 1 {
                assert(s[a].addr.0 != t.addr.0);
            }
        }
    } else if lockout_model(s[i], t, now) {
    } else {
        assert forall|a: int, b: int| 0 <= a < b < s2.len() implies (#[trigger] s2[a]).addr.0 != (
        #[trigger] s2[b]).addr.0 by {
            assert(s[a].addr.0 != s[b].addr.0);
        }
    }
}

pub proof fn lemma_fold_wf(s: Seq<TargetModel>, items: Seq<SensorData>, now: u64)
    requires
        sit_wf(s, now),
    ensures
        sit_wf(traffic_fold(s, items, now), now),
    decreases items.len(),
{
    if items.len() > 0 {
        lemma_fold_wf(s, items.drop_last(), now);
        match items.last() {
            SensorData::Traffic(t) => {
                lemma_update_wf(traffic_fold(s, items.drop_last(), now), t.deep_view(), now);
            },
            _ => {},
        }
    }
}

/// Folding reports into the situation moves no target, and never moves any
/// `last_seen` backwards.
pub proof fn lemma_fold_monotone(s: Seq<TargetModel>, items: Seq<SensorData>, now: u64)
    requires
        sit_wf(s, now),
    ensures
        traffic_fold(s, items, now).len() >= s.len(),
        forall|i: int|
            0 <= i < s.len() ==> (#[trigger] traffic_fold(s, items, now)[i]).addr.0 == s[i].addr.0
                && traffic_fold(s, items, now)[i].last_seen >= s[i].last_seen,
    decreases items.len(),
{
    if items.len() > 0 {
        lemma_fold_monotone(s, items.drop_last(), now);
        lemma_fold_wf(s, items.drop_last(), now);
        let prev = traffic_fold(s, items.drop_last(), now);
        match items.last() {
            SensorData::Traffic(t) => {
                lemma_find_idx(prev, t.deep_view().addr.0);
            },
            _ => {},
        }
    }
}

/// Every surviving entry of a cleanup is an entry of the situation, still
/// under sixty seconds old.
pub proof fn lemma_cleanup_entries(s: Seq<TargetModel>, now: u64)
    ensures
        forall|j: int|
            0 <= j < cleanup_filter(s, now).len() ==> s.contains(
                #[trigger] cleanup_filter(s, now)[j],
            ) && now - cleanup_filter(s, now)[j].last_seen < MAX_STALE_MS,
    decreases s.len(),
{
    if s.len() > 0 {
        lemma_cleanup_entries(s.drop_last(), now);
        let f = cleanup_filter(s, now);
        let rest = cleanup_filter(s.drop_last(), now);
        assert forall|j: int| 0 <= j < f.len() implies s.contains(#[trigger] f[j]) && now
            - f[j].last_seen < MAX_STALE_MS by {
            if j < rest.len() {
                assert(s.drop_last().contains(rest[j]));
                let w = choose|w: int| 0 <= w < s.drop_last().len() && s.drop_last()[w] == rest[j];
                assert(s[w] == rest[j]);
            } else {
                assert(s[s.len() - 1] == f[j]);
            }
        }
    }
}

/// Cleanup keeps every target whose last report is within the sixty-second
/// window.
pub proof fn lemma_cleanup_retains_fresh(s: Seq<TargetModel>, now: u64)
    ensures
        forall|i: int|
            0 <= i < s.len() && now - (#[trigger] s[i]).last_seen < MAX_STALE_MS ==> cleanup_filter(
                s,
                now,
            ).contains(s[i]),
    decreases s.len(),
{
    if s.len() > 0 {
        lemma_cleanup_retains_fresh(s.drop_last(), now);
        let f = cleanup_filter(s, now);
        let rest = cleanup_filter(s.drop_last(), now);
        assert forall|i: int|
            0 <= i < s.len() && now - (#[trigger] s[i]).last_seen < MAX_STALE_MS implies f.contains(
            s[i],
        ) by {
            if i < s.len() - 1 {
                assert(s.drop_last()[i] == s[i]);
                assert(rest.contains(s[i]));
                let w = choose|w: int| 0 <= w < rest.len() && rest[w] == s[i];
                assert(f[w] == s[i]);
            } else {
                assert(f.last() == s[i]);
            }
        }
    }
}

/// An ICAO address whose every entry is at least sixty seconds stale is
/// absent after cleanup.
pub proof fn lemma_stale_icao_absent(s: Seq<TargetModel>, now: u64, icao: u32)
    requires
        forall|i: int|
            0 <= i < s.len() && (#[trigger] s[i]).addr.0 == icao ==> now - s[i].last_seen
                >= MAX_STALE_MS,
    ensures
        find_idx(cleanup_filter(s, now), icao) == -1,
{
    let f = cleanup_filter(s, now);
    lemma_cleanup_entries(s, now);
    lemma_find_idx(f, icao);
    if find_idx(f, icao) >= 0 {
        let e = f[find_idx(f, icao)];
        let w = choose|w: int| 0 <= w < s.len() && s[w] == e;
        assert(false);
    }
}

/// What one call of `Traffic::run` does to the situation, the two task
/// counters and the report queue.
pub open spec fn traffic_run_spec(
    s: Seq<TargetModel>,
    cleanup_counter: u32,
    report_counter: u32,
    items: Seq<SensorData>,
    now: u64,
    freq: u16,
) -> (Seq<TargetModel>, u32, u32, Seq<ReportModel>)
    recommends
        cleanup_counter < u32::MAX,
        report_counter < u32::MAX,
{
    let s1 = traffic_fold(s, items, now);
    let cc = (cleanup_counter + 1) as u32;
    let cleanup_due = cc >= run_every_ticks(freq, 1);
    let s2 = if cleanup_due {
        cleanup_filter(s1, now)
    } else {
        s1
    };
    let cc2 = if cleanup_due {
        0u32
    } else {
        cc
    };
    let rc = (report_counter + 1) as u32;
    let report_due = rc >= run_every_ticks(freq, 10);
    let out = if report_due {
        fresh_reports(s2, now)
    } else {
        Seq::<ReportModel>::empty()
    };
    let rc2 = if report_due {
        0u32
    } else {
        rc
    };
    (s2, cc2, rc2, out)
}

/// The traffic processor: the situation plus the cleanup and report task
/// counters.
pub struct Traffic {
    pub situation: Vec<Target>,
    pub cleanup_counter: u32,
    pub report_counter: u32,
}

/// Merge one report into a target, stamping the present fields `now`.
fn merged(cur: &Target, t: &TrafficData, now: u64) -> (r: Target)
    ensures
        r.deep_view() == apply_report(cur.deep_view(), t.deep_view(), now),
{
    Target {
        addr: t.addr,
        altitude: match t.altitude {
            Some((a, ty)) => Some((a, ty, now)),
            None => cur.altitude,
        },
        gnss_delta: match t.gnss_delta {
            Some(d) => Some(d),
            None => cur.gnss_delta,
        },
        heading: match t.heading {
            Some((h, ty)) => Some((h, ty, now)),
            None => cur.heading,
        },
        speed: match t.speed {
            Some((v, ty)) => Some((v, ty, now)),
            None => cur.speed,
        },
        vs: match t.vs {
            Some(v) => Some((v, now)),
            None => cur.vs,
        },
        squawk: match t.squawk {
            Some(q) => Some(q),
            None => cur.squawk,
        },
        callsign: match &t.callsign {
            Some(c) => Some(c.clone()),
            None => match &cur.callsign {
                Some(c) => Some(c.clone()),
                None => None,
            },
        },
        category: match t.category {
            Some(c) => Some(c),
            None => cur.category,
        },
        lat_lon: match t.lat_lon {
            Some(ll) => Some((ll, now)),
            None => cur.lat_lon,
        },
        nic: match t.nic {
            Some(n) => Some(n),
            None => cur.nic,
        },
        nacp: match t.nacp {
            Some(n) => Some(n),
            None => cur.nacp,
        },
        on_ground: match t.on_ground {
            Some(g) => Some(g),
            None => cur.on_ground,
        },
        last_seen: now,
        source: t.source,
    }
}

impl Traffic {
    pub fn new() -> (r: Self)
        ensures
            dvs(r.situation@) == Seq::<TargetModel>::empty(),
            r.cleanup_counter == 0,
            r.report_counter == 0,
    {
        let r = Traffic { situation: Vec::new(), cleanup_counter: 0, report_counter: 0 };
        proof {
            assert(dvs(r.situation@) =~= Seq::<TargetModel>::empty());
        }
        r
    }

    /// Fold one traffic report into the situation.
    fn apply_one(&mut self, t: &TrafficData, now: u64)
        requires
            sit_wf(dvs(old(self).situation@), now),
        ensures
            dvs(final (self).situation@) == traffic_update(
                dvs(old(self).situation@),
                t.deep_view(),
                now,
            ),
            final (self).cleanup_counter == old(self).cleanup_counter,
            final (self).report_counter == old(self).report_counter,
    {
        let ghost s = dvs(old(self).situation@);
        let icao = t.addr.0;
        let n = self.situation.len();
        let mut k: usize = 0;
        let mut found: bool = false;
        while k < n && !found
            invariant
                k <= n,
                n == self.situation@.len(),
                *self == *old(self),
                s == dvs(self.situation@),
                found ==> k < n && s[k as int].addr.0 == icao,
                !found ==> forall|j: int| 0 <= j < k ==> (#[trigger] s[j]).addr.0 != icao,
                icao == t.addr.0,
            decreases n - k + (if found {
                0int
            } else {
                1int
            }),
        {
            if self.situation[k].addr.0 == icao {
                found = true;
            } else {
                k = k + 1;
            }
        }
        if found {
            proof {
                lemma_find_idx_at(s, icao, k as int);
            }
            let cur_type = self.situation[k].addr.1;
            let cur_last_seen = self.situation[k].last_seen;
            let cur_is_adsb = cur_type == AddressType::ADSBICAO || cur_type
                == AddressType::ADSBOther;
            let new_is_adsb = t.addr.1 == AddressType::ADSBICAO || t.addr.1
                == AddressType::ADSBOther;
            if cur_is_adsb && !new_is_adsb && now - cur_last_seen < ADS_B_LOCKOUT_MS {
                // direct ADS-B data is fresh: skip the indirect update
                return ;
            }
            let m = merged(&self.situation[k], t, now);
            self.situation.set(k, m);
            proof {
                assert(dvs(self.situation@) =~= s.update(
                    k as int,
                    apply_report(s[k as int], t.deep_view(), now),
                ));
            }
        } else {
            proof {
                lemma_find_idx(s, icao);
                if find_idx(s, icao) >= 0 {
                    assert(s[find_idx(s, icao)].addr.0 == icao);
                    assert(false);
                }
            }
            let tail = icao_to_tail(icao);
            let base = Target::new(t.addr, now, t.source, tail);
            let m = merged(&base, t, now);
            self.situation.push(m);
            proof {
                assert(dvs(self.situation@) =~= s.push(
                    apply_report(
                        new_target_model(t.addr, now, t.source, tail_spec(icao)),
                        t.deep_view(),
                        now,
                    ),
                ));
            }
        }
    }

    /// Consume a tick's sensor items: merge traffic reports into the
    /// situation, drop stale targets on the cleanup schedule and publish
    /// fresh targets on the report schedule.
    pub fn run(&mut self, handle: &mut PushableHandle<Report>, items: &Vec<SensorData>)
        requires
            sit_wf(dvs(old(self).situation@), old(handle).mono_ms),
            old(self).cleanup_counter < u32::MAX,
            old(self).report_counter < u32::MAX,
        ensures
            ({
                let (s2, cc2, rc2, out) = traffic_run_spec(
                    dvs(old(self).situation@),
                    old(self).cleanup_counter,
                    old(self).report_counter,
                    items@,
                    old(handle).mono_ms,
                    old(handle).freq,
                );
                &&& dvs(final (self).situation@) == s2
                &&& final (self).cleanup_counter == cc2
                &&& final (self).report_counter == rc2
                &&& dvs(final (handle).queue@) == dvs(old(handle).queue@) + out
                &&& sit_wf(dvs(final (self).situation@), old(handle).mono_ms)
            }),
            final (handle).utc_sec == old(handle).utc_sec,
            final (handle).mono_ms == old(handle).mono_ms,
            final (handle).freq == old(handle).freq,
    {
        let ghost s0 = dvs(old(self).situation@);
        let now = handle.get_clock();
        let freq = handle.get_frequency();

        let mut i: usize = 0;
        while i < items.len()
            invariant
                i <= items@.len(),
                dvs(self.situation@) == traffic_fold(s0, items@.take(i as int), now),
                sit_wf(dvs(self.situation@), now),
                self.cleanup_counter == old(self).cleanup_counter,
                self.report_counter == old(self).report_counter,
                *handle == *old(handle),
                now == old(handle).mono_ms,
                sit_wf(s0, now),
                s0 == dvs(old(self).situation@),
            decreases items@.len() - i,
        {
            proof {
                assert(items@.take(i + 1).drop_last() =~= items@.take(i as int));
                assert(items@.take(i + 1).last() == items@[i as int]);
            }
            match &items[i] {
                SensorData::Traffic(t) => {
                    self.apply_one(t, now);
                    proof {
                        lemma_update_wf(
                            traffic_fold(s0, items@.take(i as int), now),
                            t.deep_view(),
                            now,
                        );
                    }
                },
                _ => {},
            }
            i = i + 1;
        }
        proof {
            assert(items@.take(items@.len() as int) =~= items@);
        }
        let ghost s1 = dvs(self.situation@);

        self.cleanup_counter = self.cleanup_counter + 1;
        if self.cleanup_counter >= ticks_for(freq, 1) {
            self.cleanup_counter = 0;
            let mut kept: Vec<Target> = Vec::new();
            let mut j: usize = 0;
            while j < self.situation.len()
                invariant
                    j <= self.situation@.len(),
                    s1 == dvs(self.situation@),
                    sit_wf(s1, now),
                    dvs(kept@) == cleanup_filter(s1.take(j as int), now),
                decreases self.situation@.len() - j,
            {
                proof {
                    assert(s1.take(j + 1).drop_last() =~= s1.take(j as int));
                    assert(s1.take(j + 1).last() == s1[j as int]);
                }
                let ghost pre = kept@;
                if now - self.situation[j].last_seen < MAX_STALE_MS {
                    kept.push(self.situation[j].clone());
                    proof {
                        assert(dvs(kept@) =~= dvs(pre).push(s1[j as int]));
                    }
                }
                j = j + 1;
            }
            proof {
                assert(s1.take(s1.len() as int) =~= s1);
            }
            self.situation = kept;
        }
        let ghost s2 = dvs(self.situation@);
        proof {
            lemma_cleanup_entries(s1, now);
            assert forall|a: int| 0 <= a < s2.len() implies target_wf(#[trigger] s2[a], now) by {
                if s2 != s1 {
                    let w = choose|w: int| 0 <= w < s1.len() && s1[w] == s2[a];
                }
            }
            if s2 != s1 {
                lemma_cleanup_unique(s1, now);
            }
        }

        self.report_counter = self.report_counter + 1;
        if self.report_counter >= ticks_for(freq, 10) {
            self.report_counter = 0;
            let ghost q0 = dvs(handle.queue@);
            let mut j: usize = 0;
            while j < self.situation.len()
                invariant
                    j <= self.situation@.len(),
                    s2 == dvs(self.situation@),
                    sit_wf(s2, now),
                    dvs(handle.queue@) == q0 + fresh_reports(s2.take(j as int), now),
                    handle.utc_sec == old(handle).utc_sec,
                    handle.mono_ms == old(handle).mono_ms,
                    handle.freq == old(handle).freq,
                decreases self.situation@.len() - j,
            {
                proof {
                    assert(s2.take(j + 1).drop_last() =~= s2.take(j as int));
                    assert(s2.take(j + 1).last() == s2[j as int]);
                }
                let ghost pre = handle.queue@;
                if self.situation[j].is_fresh(now) {
                    let rep = self.situation[j].clone();
                    handle.emit(Report::Traffic(rep));
                    proof {
                        assert(dvs(handle.queue@) =~= dvs(pre).push(
                            ReportModel::Traffic(s2[j as int]),
                        ));
                    }
                }
                j = j + 1;
            }
            proof {
                assert(s2.take(s2.len() as int) =~= s2);
            }
        }
    }
}

/// Cleanup preserves uniqueness and well-formedness of the situation.
proof fn lemma_cleanup_unique(s: Seq<TargetModel>, now: u64)
    requires
        sit_wf(s, now),
    ensures
        sit_wf(cleanup_filter(s, now), now),
    decreases s.len(),
{
    if s.len() > 0 {
        lemma_cleanup_unique(s.drop_last(), now);
        let f = cleanup_filter(s, now);
        let rest = cleanup_filter(s.drop_last(), now);
        lemma_cleanup_entries(s.drop_last(), now);
        assert forall|a: int, b: int| 0 <= a < b < f.len() implies (#[trigger] f[a]).addr.0 != (
        #[trigger] f[b]).addr.0 by {
            if b == f.len() - 1 && f.len() > rest.len() {
                assert(s.drop_last().contains(rest[a]));
                let w = choose|w: int|
                    0 <= w < s.drop_last().len() && s.drop_last()[w] == rest[a];
                assert(s[w] == f[a]);
                assert(s[s.len() - 1] == f[b]);
            }
        }
        assert forall|a: int| 0 <= a < f.len() implies target_wf(#[trigger] f[a], now) by {
            lemma_cleanup_entries(s, now);
            let w = choose|w: int| 0 <= w < s.len() && s[w] == f[a];
        }
    }
}

/// When no report this tick names an ICAO address, its entry (or absence)
/// survives the fold unchanged.
pub proof fn lemma_unreported_unchanged(
    s: Seq<TargetModel>,
    items: Seq<SensorData>,
    now: u64,
    icao: u32,
)
    requires
        forall|i: int|
            0 <= i < items.len() ==> ((#[trigger] items[i]) matches SensorData::Traffic(t)
                ==> t.deep_view().addr.0 != icao),
    ensures
        find_idx(traffic_fold(s, items, now), icao) >= 0 <==> find_idx(s, icao) >= 0,
        find_idx(s, icao) >= 0 ==> traffic_fold(s, items, now)[find_idx(
            traffic_fold(s, items, now),
            icao,
        )] == s[find_idx(s, icao)],
    decreases items.len(),
{
    lemma_find_idx(s, icao);
    if items.len() == 0 {
    } else {
        assert(forall|i: int| 0 <= i < items.len() - 1 ==> items.drop_last()[i] == items[i]);
        lemma_unreported_unchanged(s, items.drop_last(), now, icao);
        let prev = traffic_fold(s, items.drop_last(), now);
        lemma_find_idx(prev, icao);
        assert(items.last() == items[items.len() - 1]);
        match items.last() {
            SensorData::Traffic(t) => {
                let tm = t.deep_view();
                let cur = traffic_update(prev, tm, now);
                lemma_find_idx(cur, icao);
                let i = find_idx(prev, tm.addr.0);
                lemma_find_idx(prev, tm.addr.0);
                if i < 0 {
                    // a fresh target with a different address is appended
                    if find_idx(prev, icao) >= 0 {
                        lemma_find_idx_at(cur, icao, find_idx(prev, icao));
                    } else {
                        if find_idx(cur, icao) >= 0 {
                            assert(cur[find_idx(cur, icao)].addr.0 == icao);
                            if find_idx(cur, icao) < prev.len() {
                                assert(prev[find_idx(cur, icao)].addr.0 == icao);
                            }
                            assert(false);
                        }
                    }
                } else if lockout_model(prev[i], tm, now) {
                } else {
                    // an existing entry with a different address is merged
                    // in place, every other index untouched
                    if find_idx(prev, icao) >= 0 {
                        lemma_find_idx_at(cur, icao, find_idx(prev, icao));
                    } else {
                        if find_idx(cur, icao) >= 0 {
                            assert(cur[find_idx(cur, icao)].addr.0 == icao);
                            assert(prev[find_idx(cur, icao)].addr.0 == icao);
                            assert(false);
                        }
                    }
                }
            },
            _ => {},
        }
    }
}

/// A target's last-seen stamp never decreases across a tick: whenever an
/// ICAO address is tracked both before and after `Traffic::run`, the stamp
/// after is at least the stamp before.
pub proof fn lemma_last_seen_monotone(
    s: Seq<TargetModel>,
    cleanup_counter: u32,
    report_counter: u32,
    items: Seq<SensorData>,
    now: u64,
    freq: u16,
    icao: u32,
)
    requires
        sit_wf(s, now),
        cleanup_counter < u32::MAX,
        report_counter < u32::MAX,
        find_idx(s, icao) >= 0,
        find_idx(traffic_run_spec(s, cleanup_counter, report_counter, items, now, freq).0, icao)
            >= 0,
    ensures
        ({
            let s2 = traffic_run_spec(s, cleanup_counter, report_counter, items, now, freq).0;
            s2[find_idx(s2, icao)].last_seen >= s[find_idx(s, icao)].last_seen
        }),
{
    let k = find_idx(s, icao);
    lemma_find_idx(s, icao);
    let s1 = traffic_fold(s, items, now);
    lemma_fold_monotone(s, items, now);
    lemma_fold_wf(s, items, now);
    assert forall|j: int| 0 <= j < k implies (#[trigger] s1[j]).addr.0 != icao by {
        assert(s1[j].addr.0 == s[j].addr.0);
    }
    lemma_find_idx_at(s1, icao, k);
    let s2 = traffic_run_spec(s, cleanup_counter, report_counter, items, now, freq).0;
    if s2 == s1 {
    } else {
        // cleanup ran: the surviving entry is an entry of the folded
        // situation, and by uniqueness it is the very entry found before
        lemma_cleanup_entries(s1, now);
        let m = find_idx(s2, icao);
        lemma_find_idx(s2, icao);
        let e = s2[m];
        let w = choose|w: int| 0 <= w < s1.len() && s1[w] == e;
        if w != k {
            if w < k {
                assert(s1[w].addr.0 != s1[k].addr.0);
            } else {
                assert(s1[k].addr.0 != s1[w].addr.0);
            }
        }
    }
}

/// An ICAO address whose every entry is sixty seconds stale and for which
/// no report arrives is absent once the cleanup task runs.
pub proof fn lemma_stale_unreported_dropped(
    s: Seq<TargetModel>,
    cleanup_counter: u32,
    report_counter: u32,
    items: Seq<SensorData>,
    now: u64,
    freq: u16,
    icao: u32,
)
    requires
        sit_wf(s, now),
        cleanup_counter < u32::MAX,
        report_counter < u32::MAX,
        forall|i: int|
            0 <= i < s.len() && (#[trigger] s[i]).addr.0 == icao ==> now - s[i].last_seen
                >= MAX_STALE_MS,
        forall|i: int|
            0 <= i < items.len() ==> ((#[trigger] items[i]) matches SensorData::Traffic(t)
                ==> t.deep_view().addr.0 != icao),
        cleanup_counter + 1 >= run_every_ticks(freq, 1),
    ensures
        find_idx(traffic_run_spec(s, cleanup_counter, report_counter, items, now, freq).0, icao)
            == -1,
{
    let s1 = traffic_fold(s, items, now);
    lemma_unreported_unchanged(s, items, now, icao);
    lemma_find_idx(s, icao);
    lemma_find_idx(s1, icao);
    assert forall|i: int|
        0 <= i < s1.len() && (#[trigger] s1[i]).addr.0 == icao implies now - s1[i].last_seen
        >= MAX_STALE_MS by {
        if find_idx(s1, icao) >= 0 {
            if i != find_idx(s1, icao) {
                if i < find_idx(s1, icao) {
                    assert(s1[find_idx(s1, icao)].addr.0 != icao);
                } else {
                    assert(s1[i].addr.0 == icao && s1[find_idx(s1, icao)].addr.0 == icao);
                    lemma_fold_wf(s, items, now);
                    assert(false);
                }
            } else {
                assert(s1[i] == s[find_idx(s, icao)]);
            }
        } else {
            assert(s1[i].addr.0 != icao);
        }
    }
    lemma_stale_icao_absent(s1, now, icao);
}

/// The squawk carried as four binary-coded decimal digits, rendered as the
/// decimal number the digits spell.
pub fn squawk_from_bcd(raw: u16) -> (r: u16)
    ensures
        r == (raw / 0x1000) * 1000 + ((raw / 0x100) % 16) * 100 + ((raw / 16) % 16) * 10 + raw
            % 16,
{
    (raw / 0x1000) * 1000 + ((raw / 0x100) % 16) * 100 + ((raw / 16) % 16) * 10 + raw % 16
}

/// The emitter category from its extended-squitter type code: eight
/// categories per type, the first type at 0xA0 (an eight-bit wrap, as the
/// wire arithmetic has it).
pub fn category_from_code(raw: u8) -> (r: u8)
    ensures
        r == ((raw / 16 + 246) * 8 + raw % 16) % 256,
{
    let v: u32 = ((raw as u32 / 16 + 246) * 8 + raw as u32 % 16) % 256;
    v as u8
}

} // verus!
