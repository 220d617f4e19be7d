//! The satellite receiver's wire protocol: sync-framed, checksummed binary
//! packets, the window buffer that resynchronizes a byte stream into
//! packets, the acknowledgement protocol, and the parsers for the
//! position-velocity-time and satellite-status message payloads.

use crate::sensor::{Constellation, Fix, FixQuality, GNSSData, SVStatus, UtcTime};
use vstd::prelude::*;

verus! {

/// First sync byte of every packet.
pub const SYNC1: u8 = 0xB5;

/// Second sync byte of every packet.
pub const SYNC2: u8 = 0x62;

/// One checksum step of the two running 8-bit Fletcher sums.
pub open spec fn ck_step(ck: (int, int), b: u8) -> (int, int) {
    (((ck.0 + b) % 256), ((ck.1 + ck.0 + b) % 256))
}

/// The two checksum bytes of a byte sequence.
pub open spec fn ck_spec(data: Seq<u8>) -> (int, int)
    decreases data.len(),
{
    if data.len() == 0 {
        (0, 0)
    } else {
        ck_step(ck_spec(data.drop_last()), data.last())
    }
}

/// Compute the packet checksum over the given range of bytes.
pub fn make_ubx_checksum(buf: &Vec<u8>, from: usize, to: usize) -> (r: (u8, u8))
    requires
        from <= to <= buf@.len(),
    ensures
        (r.0 as int, r.1 as int) == ck_spec(buf@.subrange(from as int, to as int)),
{
    let mut a: u16 = 0;
    let mut b: u16 = 0;
    let mut i: usize = from;
    proof {
        assert(buf@.subrange(from as int, from as int) =~= Seq::<u8>::empty());
    }
    while i < to
        invariant
            from <= i <= to <= buf@.len(),
            a < 256,
            b < 256,
            (a as int, b as int) == ck_spec(buf@.subrange(from as int, i as int)),
        decreases to - i,
    {
        proof {
            assert(buf@.subrange(from as int, i + 1).drop_last() =~= buf@.subrange(
                from as int,
                i as int,
            ));
            assert(buf@.subrange(from as int, i + 1).last() == buf@[i as int]);
        }
        a = (a + buf[i] as u16) % 256;
        b = (b + a) % 256;
        i = i + 1;
    }
    (a as u8, b as u8)
}

/// One protocol packet: a message class, an identifier and a payload.
#[derive(Debug, PartialEq)]
pub struct UBXPacket {
    pub class: u8,
    pub id: u8,
    pub payload: Vec<u8>,
}

/// The abstract value of a packet.
pub ghost struct UBXPacketModel {
    pub class: u8,
    pub id: u8,
    pub payload: Seq<u8>,
}

impl DeepView for UBXPacket {
    type V = UBXPacketModel;

    open spec fn deep_view(&self) -> UBXPacketModel {
        UBXPacketModel { class: self.class, id: self.id, payload: self.payload@ }
    }
}

/// The header-and-payload span a packet's checksum covers.
pub open spec fn wire_body(class: u8, id: u8, payload: Seq<u8>) -> Seq<u8> {
    seq![class, id, (payload.len() % 256) as u8, ((payload.len() / 256) % 256) as u8] + payload
}

/// A packet's full wire form: sync bytes, body, checksum.
pub open spec fn wire_spec(class: u8, id: u8, payload: Seq<u8>) -> Seq<u8> {
    let body = wire_body(class, id, payload);
    let ck = ck_spec(body);
    seq![SYNC1, SYNC2] + body + seq![ck.0 as u8, ck.1 as u8]
}

impl UBXPacket {
    pub fn new(class: u8, id: u8, payload: Vec<u8>) -> (r: UBXPacket)
        ensures
            r.deep_view() == (UBXPacketModel { class, id, payload: payload@ }),
    {
        UBXPacket { class, id, payload }
    }

    /// Render this packet in its wire form, ready for the serial line.
    pub fn to_wire(&self) -> (r: Vec<u8>)
        requires
            self.payload@.len() < 0x10000,
        ensures
            r@ == wire_spec(self.class, self.id, self.payload@),
    {
        let mut ret: Vec<u8> = Vec::new();
        ret.push(SYNC1);
        ret.push(SYNC2);
        ret.push(self.class);
        ret.push(self.id);
        let len: u16 = self.payload.len() as u16;
        ret.push((len % 256) as u8);
        ret.push((len / 256) as u8);
        let mut i: usize = 0;
        while i < self.payload.len()
            invariant
                i <= self.payload@.len(),
                ret@ == seq![SYNC1, SYNC2] + wire_body(self.class, self.id, self.payload@).take(
                    4 + i,
                ),
                self.payload@.len() < 0x10000,
            decreases self.payload@.len() - i,
        {
            ret.push(self.payload[i]);
            proof {
                assert(wire_body(self.class, self.id, self.payload@).take(4 + i + 1) =~= wire_body(
                    self.class,
                    self.id,
                    self.payload@,
                ).take(4 + i).push(self.payload@[i as int]));
            }
            i = i + 1;
        }
        proof {
            assert(wire_body(self.class, self.id, self.payload@).take(
                4 + self.payload@.len() as int,
            ) =~= wire_body(self.class, self.id, self.payload@));
            assert(ret@.subrange(2, ret@.len() as int) =~= wire_body(
                self.class,
                self.id,
                self.payload@,
            ));
        }
        let ck = make_ubx_checksum(&ret, 2, ret.len());
        ret.push(ck.0);
        ret.push(ck.1);
        proof {
            assert(ret@ =~= wire_spec(self.class, self.id, self.payload@));
        }
        ret
    }
}

/// The index of the first sync pair in a byte window, or -1.
pub open spec fn find_sync(b: Seq<u8>) -> int
    decreases b.len(),
{
    if b.len() < 2 {
        -1
    } else if b[0] == SYNC1 && b[1] == SYNC2 {
        0
    } else {
        let r = find_sync(b.skip(1));
        if r < 0 {
            -1
        } else {
            r + 1
        }
    }
}

/// The little-endian 16-bit value at `off`.
pub open spec fn le_u16_at(b: Seq<u8>, off: int) -> int {
    b[off] + b[off + 1] * 256
}

/// What parsing a byte window yields.
pub enum UbxParse {
    /// A whole packet, with how many leading bytes it consumed.
    Done { consumed: usize, packet: UBXPacket },
    /// More bytes are needed before anything can be decided.
    Incomplete,
    /// The window holds no sync pair, or the checksum failed: the window
    /// should be discarded.
    Error,
}

/// How parsing a window must come out: no sync pair is an error; a sync
/// pair with too few bytes after it is incomplete; otherwise the checksum
/// decides between a packet and an error.
pub open spec fn ubx_parse_ok(b: Seq<u8>) -> bool {
    let i = find_sync(b);
    &&& i >= 0
    &&& b.len() >= i + 8 + le_u16_at(b, i + 4)
    &&& ({
        let plen = le_u16_at(b, i + 4);
        let body = b.subrange(i + 2, i + 6 + plen);
        let ck = ck_spec(body);
        b[i + 6 + plen] == ck.0 && b[i + 7 + plen] == ck.1
    })
}

/// The packet a well-formed window yields.
pub open spec fn ubx_packet_of(b: Seq<u8>) -> UBXPacketModel {
    let i = find_sync(b);
    let plen = le_u16_at(b, i + 4);
    UBXPacketModel { class: b[i + 2], id: b[i + 3], payload: b.subrange(i + 6, i + 6 + plen) }
}

/// How many bytes a well-formed window's packet consumes.
pub open spec fn ubx_consumed_of(b: Seq<u8>) -> int {
    let i = find_sync(b);
    i + 8 + le_u16_at(b, i + 4)
}

pub proof fn lemma_find_sync(b: Seq<u8>)
    ensures
        find_sync(b) >= 0 ==> find_sync(b) + 2 <= b.len() && b[find_sync(b)] == SYNC1 && b[
            find_sync(b) + 1] == SYNC2,
    decreases b.len(),
{
    if b.len() < 2 {
    } else if b[0] == SYNC1 && b[1] == SYNC2 {
    } else {
        lemma_find_sync(b.skip(1));
    }
}

/// Find the first sync pair by scanning.
fn find_sync_exec(b: &Vec<u8>) -> (r: Option<usize>)
    requires
        b@.len() < usize::MAX - 2,
    ensures
        r is Some ==> find_sync(b@) == r.unwrap(),
        r is None ==> find_sync(b@) == -1,
{
    if b.len() < 2 {
        return None;
    }
    proof {
        assert(b@.skip(0) =~= b@);
    }
    let mut i: usize = 0;
    while i + 2 <= b.len()
        invariant
            b@.len() >= 2,
            b@.len() < usize::MAX - 2,
            i + 2 <= b@.len() + 1,
            find_sync(b@) == (if find_sync(b@.skip(i as int)) < 0 {
                -1int
            } else {
                find_sync(b@.skip(i as int)) + i
            }),
        decreases b@.len() - i,
    {
        let ghost pre = b@.skip(i as int);
        proof {
            assert(pre.len() >= 2);
            assert(pre[0] == b@[i as int]);
            assert(pre[1] == b@[i + 1]);
            assert(pre.skip(1) =~= b@.skip(i + 1));
        }
        if b[i] == SYNC1 && b[i + 1] == SYNC2 {
            proof {
                assert(find_sync(pre) == 0);
            }
            return Some(i);
        }
        i = i + 1;
    }
    proof {
        assert(b@.skip(i as int).len() < 2);
    }
    None
}

/// Parse one packet out of a byte window.
pub fn parse_ubx_message(b: &Vec<u8>) -> (r: UbxParse)
    requires
        b@.len() < usize::MAX - 0x20000,
    ensures
        match r {
            UbxParse::Done { consumed, packet } => ubx_parse_ok(b@) && packet.deep_view()
                == ubx_packet_of(b@) && consumed == ubx_consumed_of(b@),
            UbxParse::Incomplete => find_sync(b@) >= 0 && b@.len() < ubx_consumed_of(b@),
            UbxParse::Error => find_sync(b@) < 0 || (b@.len() >= ubx_consumed_of(b@)
                && !ubx_parse_ok(b@)),
        },
{
    let i = match find_sync_exec(b) {
        Some(i) => i,
        None => { return UbxParse::Error },
    };
    proof {
        lemma_find_sync(b@);
    }
    if b.len() < i + 6 {
        // not even the header is complete; its length field would need
        // i + 8 more bytes at the least
        proof {
            assert(le_u16_at(b@, i + 4) >= 0 || true);
        }
        return UbxParse::Incomplete;
    }
    let plen: usize = b[i + 4] as usize + (b[i + 5] as usize) * 256;
    if b.len() < i + 8 + plen {
        return UbxParse::Incomplete;
    }
    let ck = make_ubx_checksum(b, i + 2, i + 6 + plen);
    if b[i + 6 + plen] != ck.0 || b[i + 7 + plen] != ck.1 {
        return UbxParse::Error;
    }
    let mut payload: Vec<u8> = Vec::new();
    let mut k: usize = i + 6;
    while k < i + 6 + plen
        invariant
            i + 6 <= k <= i + 6 + plen,
            i + 8 + plen <= b@.len(),
            b@.len() < usize::MAX - 0x20000,
            payload@ == b@.subrange(i + 6, k as int),
        decreases i + 6 + plen - k,
    {
        payload.push(b[k]);
        proof {
            assert(b@.subrange(i + 6, k + 1) =~= b@.subrange(i + 6, k as int).push(b@[k as int]));
        }
        k = k + 1;
    }
    let packet = UBXPacket { class: b[i + 2], id: b[i + 3], payload };
    UbxParse::Done { consumed: i + 8 + plen, packet }
}

/// The little-endian 32-bit value at `off`.
pub open spec fn le_u32_at(b: Seq<u8>, off: int) -> int {
    b[off] + b[off + 1] * 0x100 + b[off + 2] * 0x10000 + b[off + 3] * 0x1000000
}

/// The little-endian signed 32-bit value at `off`.
pub open spec fn le_i32_at(b: Seq<u8>, off: int) -> int {
    let raw = le_u32_at(b, off);
    if raw >= 0x80000000 {
        raw - 0x100000000
    } else {
        raw
    }
}

/// The little-endian signed 16-bit value at `off`.
pub open spec fn le_i16_at(b: Seq<u8>, off: int) -> int {
    let raw = le_u16_at(b, off);
    if raw >= 0x8000 {
        raw - 0x10000
    } else {
        raw
    }
}

fn le_u16_exec(b: &Vec<u8>, off: usize) -> (r: u16)
    requires
        off + 2 <= b@.len(),
    ensures
        r == le_u16_at(b@, off as int),
{
    // reading the length binds the view's length to the machine word
    let _len = b.len();
    (b[off] as u16) + (b[off + 1] as u16) * 256
}

fn le_u32_exec(b: &Vec<u8>, off: usize) -> (r: u32)
    requires
        off + 4 <= b@.len(),
    ensures
        r == le_u32_at(b@, off as int),
{
    // reading the length binds the view's length to the machine word
    let _len = b.len();
    (b[off] as u32) + (b[off + 1] as u32) * 0x100 + (b[off + 2] as u32) * 0x10000 + (b[off
        + 3] as u32) * 0x1000000
}

fn le_i32_exec(b: &Vec<u8>, off: usize) -> (r: i32)
    requires
        off + 4 <= b@.len(),
    ensures
        r == le_i32_at(b@, off as int),
{
    let raw: u32 = le_u32_exec(b, off);
    if raw >= 0x80000000 {
        -((0xFFFFFFFFu32 - raw) as i32) - 1
    } else {
        raw as i32
    }
}

fn le_i16_exec(b: &Vec<u8>, off: usize) -> (r: i16)
    requires
        off + 2 <= b@.len(),
    ensures
        r == le_i16_at(b@, off as int),
{
    let raw: u16 = le_u16_exec(b, off);
    if raw >= 0x8000 {
        -((0xFFFFu16 - raw) as i16) - 1
    } else {
        raw as i16
    }
}

/// The timestamp of a position-velocity-time payload, absent when none of
/// its validity bits is set.
pub open spec fn pvt_time_spec(b: Seq<u8>) -> Option<UtcTime> {
    if b[11] % 8 != 0 {
        Some(
            UtcTime {
                year: le_u16_at(b, 4) as u16,
                month: b[6],
                day: b[7],
                hour: b[8],
                min: b[9],
                sec: b[10],
            },
        )
    } else {
        None
    }
}

/// The fix of a position-velocity-time payload, absent for the no-fix and
/// time-only fix types.
pub open spec fn pvt_fix_spec(b: Seq<u8>) -> Option<Fix> {
    let fix_type = b[20];
    if fix_type != 0 && fix_type != 5 {
        Some(
            Fix {
                lat_lon: (
                    ((le_i32_at(b, 28) as i32, le_i32_at(b, 24) as i32)),
                    Some(le_u32_at(b, 40) as u32),
                ),
                height_msl: (le_i32_at(b, 36) as i32, Some(le_u32_at(b, 44) as u32)),
                height_ellipsoid: (le_i32_at(b, 32) as i32, Some(le_u32_at(b, 44) as u32)),
                gs: (le_u32_at(b, 60) as u32, Some(le_u32_at(b, 68) as u32)),
                true_course: (le_i32_at(b, 64) as i32, Some(le_u32_at(b, 72) as u32)),
                quality: if b[21] % 4 >= 2 {
                    FixQuality::SBAS
                } else if fix_type == 2 {
                    FixQuality::TwoDim
                } else if fix_type == 3 {
                    FixQuality::ThreeDim
                } else {
                    FixQuality::Unknown
                },
                num_sv: b[23],
                mag_dec: if (b[11] / 8) % 2 == 0 {
                    None
                } else {
                    Some((le_i16_at(b, 88) as i16, Some(le_u16_at(b, 90) as u16)))
                },
            },
        )
    } else {
        None
    }
}

/// Parse a position-velocity-time payload (92 bytes) into a timestamped
/// fix; `None` when the payload is too short.
pub fn parse_ubx_nav_pvt(payload: &Vec<u8>) -> (r: Option<GNSSData>)
    ensures
        payload@.len() >= 92 ==> r == Some(
            GNSSData::TimeFix { time: pvt_time_spec(payload@), fix: pvt_fix_spec(payload@) },
        ),
        payload@.len() < 92 ==> r is None,
{
    if payload.len() < 92 {
        return None;
    }
    let time: Option<UtcTime> = if payload[11] % 8 != 0 {
        Some(
            UtcTime {
                year: le_u16_exec(payload, 4),
                month: payload[6],
                day: payload[7],
                hour: payload[8],
                min: payload[9],
                sec: payload[10],
            },
        )
    } else {
        None
    };
    let fix_type = payload[20];
    let fix: Option<Fix> = if fix_type != 0 && fix_type != 5 {
        Some(
            Fix {
                lat_lon: (
                    (le_i32_exec(payload, 28), le_i32_exec(payload, 24)),
                    Some(le_u32_exec(payload, 40)),
                ),
                height_msl: (le_i32_exec(payload, 36), Some(le_u32_exec(payload, 44))),
                height_ellipsoid: (le_i32_exec(payload, 32), Some(le_u32_exec(payload, 44))),
                gs: (le_u32_exec(payload, 60), Some(le_u32_exec(payload, 68))),
                true_course: (le_i32_exec(payload, 64), Some(le_u32_exec(payload, 72))),
                quality: if payload[21] % 4 >= 2 {
                    FixQuality::SBAS
                } else if fix_type == 2 {
                    FixQuality::TwoDim
                } else if fix_type == 3 {
                    FixQuality::ThreeDim
                } else {
                    FixQuality::Unknown
                },
                num_sv: payload[23],
                mag_dec: if (payload[11] / 8) % 2 == 0 {
                    None
                } else {
                    Some((le_i16_exec(payload, 88), Some(le_u16_exec(payload, 90))))
                },
            },
        )
    } else {
        None
    };
    Some(GNSSData::TimeFix { time, fix })
}

/// The satellite-status entry at record index `j` of a satellite-status
/// payload.
pub open spec fn sat_entry_spec(b: Seq<u8>, j: int) -> SVStatus {
    let off = 8 + 12 * j;
    let gnss_id = b[off];
    let flags = le_u32_at(b, off + 8);
    SVStatus {
        system: if gnss_id == 0 {
            Constellation::GPS
        } else if gnss_id == 1 {
            Constellation::SBAS
        } else if gnss_id == 2 {
            Constellation::Galileo
        } else if gnss_id == 6 {
            Constellation::GLONASS
        } else {
            Constellation::Unknown
        },
        sv_id: b[off + 1],
        signal: Some(b[off + 2]),
        elevation: Some(
            (
            if b[off + 3] >= 0x80 {
                b[off + 3] - 0x100
            } else {
                b[off + 3] as int
            }) as i8,
        ),
        azimuth: Some(le_u16_at(b, off + 4) as u16),
        // the health bits of the flags word are not decoded; every tracked
        // vehicle is reported healthy, as the receiver integration always has
        healthy: Some(true),
        acquired: flags % 8 >= 2,
        in_solution: (flags / 8) % 2 == 1,
        sbas_in_use: Some((flags / 0x10000) % 2 == 1),
    }
}

/// The satellite-status entries of a payload, in order.
pub open spec fn sat_entries_spec(b: Seq<u8>, k: int) -> Seq<SVStatus>
    decreases k,
{
    if k <= 0 {
        Seq::<SVStatus>::empty()
    } else {
        sat_entries_spec(b, k - 1).push(sat_entry_spec(b, k - 1))
    }
}

/// Whether a satellite-status payload is well formed: the supported
/// protocol version and room for every entry it announces.
pub open spec fn sat_ok_spec(b: Seq<u8>) -> bool {
    b.len() >= 8 && b[4] == 1 && b.len() >= 8 + 12 * b[5]
}

/// Parse a satellite-status payload into the per-satellite entries; `None`
/// when the payload is malformed.
pub fn parse_ubx_nav_sat(payload: &Vec<u8>) -> (r: Option<GNSSData>)
    ensures
        r is Some <==> sat_ok_spec(payload@),
        r is Some ==> (r.unwrap() matches GNSSData::SatelliteInfo(v) && v@ == sat_entries_spec(
            payload@,
            payload@[5] as int,
        )),
{
    if payload.len() < 8 || payload[4] != 1 {
        return None;
    }
    let num: usize = payload[5] as usize;
    if payload.len() < 8 + 12 * num {
        return None;
    }
    let mut v: Vec<SVStatus> = Vec::new();
    let mut j: usize = 0;
    while j < num
        invariant
            j <= num,
            num == payload@[5],
            8 + 12 * num <= payload@.len(),
            v@ == sat_entries_spec(payload@, j as int),
        decreases num - j,
    {
        let off: usize = 8 + 12 * j;
        let gnss_id = payload[off];
        let flags: u32 = le_u32_exec(payload, off + 8);
        let e3 = payload[off + 3];
        let entry = SVStatus {
            system: if gnss_id == 0 {
                Constellation::GPS
            } else if gnss_id == 1 {
                Constellation::SBAS
            } else if gnss_id == 2 {
                Constellation::Galileo
            } else if gnss_id == 6 {
                Constellation::GLONASS
            } else {
                Constellation::Unknown
            },
            sv_id: payload[off + 1],
            signal: Some(payload[off + 2]),
            elevation: Some(
                if e3 >= 0x80 {
                    -((0xFFu8 - e3) as i8) - 1
                } else {
                    e3 as i8
                },
            ),
            azimuth: Some(le_u16_exec(payload, off + 4)),
            healthy: Some(true),
            acquired: flags % 8 >= 2,
            in_solution: (flags / 8) % 2 == 1,
            sbas_in_use: Some((flags / 0x10000) % 2 == 1),
        };
        v.push(entry);
        j = j + 1;
    }
    Some(GNSSData::SatelliteInfo(v))
}

/// What an acknowledgement packet says about a configuration packet that
/// was just sent.
pub enum AckOutcome {
    /// The receiver acknowledged the packet.
    Acked,
    /// The receiver refused the packet.
    Nak,
    /// The packet is unrelated to the pending configuration.
    Ignore,
}

/// Classify a response packet against the configuration packet awaiting
/// acknowledgement.
pub fn ack_outcome(sent_class: u8, sent_id: u8, resp: &UBXPacket) -> (r: AckOutcome)
    ensures
        ({
            let matches_sent = resp.payload@ =~= seq![sent_class, sent_id];
            match r {
                AckOutcome::Acked => resp.class == 5 && resp.id == 1 && matches_sent,
                AckOutcome::Nak => resp.class == 5 && resp.id == 0 && matches_sent,
                AckOutcome::Ignore => !(resp.class == 5 && (resp.id == 1 || resp.id == 0)
                    && matches_sent),
            }
        }),
{
    if resp.class == 5 && (resp.id == 1 || resp.id == 0) && resp.payload.len() == 2
        && resp.payload[0] == sent_class && resp.payload[1] == sent_id {
        proof {
            assert(resp.payload@ =~= seq![sent_class, sent_id]);
        }
        if resp.id == 1 {
            AckOutcome::Acked
        } else {
            AckOutcome::Nak
        }
    } else {
        proof {
            if resp.payload@.len() == 2 && resp.payload@[0] == sent_class && resp.payload@[1]
                == sent_id {
                assert(resp.payload@ =~= seq![sent_class, sent_id]);
            }
        }
        AckOutcome::Ignore
    }
}

/// What one attempt to take a packet out of the window yields.
pub enum UbxNext {
    /// A packet; its bytes were consumed from the window.
    Packet(UBXPacket),
    /// The window holds no complete packet yet; feed more bytes.
    NeedMore,
    /// The window was discarded: no sync, a bad checksum, or a full window
    /// with no complete packet.
    Discarded,
}

/// A bounded window over the receiver's byte stream, resynchronized packet
/// by packet.
pub struct UbxBuffer {
    pub buf: Vec<u8>,
    pub cap: usize,
}

impl UbxBuffer {
    pub fn new(cap: usize) -> (r: Self)
        requires
            2 <= cap < usize::MAX - 0x20000,
        ensures
            r.buf@ == Seq::<u8>::empty(),
            r.cap == cap,
    {
        UbxBuffer { buf: Vec::new(), cap }
    }

    /// Append stream bytes up to the window's capacity; how many were taken.
    pub fn feed(&mut self, data: &Vec<u8>) -> (r: usize)
        requires
            old(self).buf@.len() <= old(self).cap,
            old(self).cap < usize::MAX - 0x20000,
        ensures
            r == if data@.len() <= old(self).cap - old(self).buf@.len() {
                data@.len() as int
            } else {
                old(self).cap - old(self).buf@.len()
            },
            final (self).buf@ == old(self).buf@ + data@.take(r as int),
            final (self).cap == old(self).cap,
    {
        let room: usize = self.cap - self.buf.len();
        let take: usize = if data.len() <= room {
            data.len()
        } else {
            room
        };
        let mut i: usize = 0;
        while i < take
            invariant
                i <= take,
                take <= data@.len(),
                self.buf@ == old(self).buf@ + data@.take(i as int),
                self.cap == old(self).cap,
            decreases take - i,
        {
            self.buf.push(data[i]);
            proof {
                assert(old(self).buf@ + data@.take(i + 1) =~= (old(self).buf@ + data@.take(
                    i as int,
                )).push(data@[i as int]));
            }
            i = i + 1;
        }
        take
    }

    /// Try to take one packet out of the window, consuming its bytes; on a
    /// parse error, or when the window is full yet still incomplete, the
    /// window is discarded so the stream can resynchronize.
    pub fn next(&mut self) -> (r: UbxNext)
        requires
            old(self).buf@.len() <= old(self).cap,
            old(self).cap < usize::MAX - 0x20000,
        ensures
            final (self).cap == old(self).cap,
            final (self).buf@.len() <= old(self).cap,
            match r {
                UbxNext::Packet(p) => ubx_parse_ok(old(self).buf@) && p.deep_view()
                    == ubx_packet_of(old(self).buf@) && final (self).buf@ == old(self).buf@.skip(
                    ubx_consumed_of(old(self).buf@),
                ),
                UbxNext::NeedMore => final (self).buf@ == old(self).buf@ && find_sync(
                    old(self).buf@,
                ) >= 0 && old(self).buf@.len() < ubx_consumed_of(old(self).buf@) && old(
                    self,
                ).buf@.len() < old(self).cap,
                UbxNext::Discarded => final (self).buf@ == Seq::<u8>::empty() && (find_sync(
                    old(self).buf@,
                ) < 0 || (old(self).buf@.len() >= ubx_consumed_of(old(self).buf@)
                    && !ubx_parse_ok(old(self).buf@)) || old(self).buf@.len() >= old(self).cap),
            },
    {
        match parse_ubx_message(&self.buf) {
            UbxParse::Done { consumed, packet } => {
                let mut rest: Vec<u8> = Vec::new();
                let mut i: usize = consumed;
                let n = self.buf.len();
                while i < n
                    invariant
                        consumed <= i <= n,
                        n == self.buf@.len(),
                        rest@ == self.buf@.subrange(consumed as int, i as int),
                    decreases n - i,
                {
                    rest.push(self.buf[i]);
                    proof {
                        assert(self.buf@.subrange(consumed as int, i + 1) =~= self.buf@.subrange(
                            consumed as int,
                            i as int,
                        ).push(self.buf@[i as int]));
                    }
                    i = i + 1;
                }
                proof {
                    assert(self.buf@.subrange(consumed as int, self.buf@.len() as int)
                        =~= self.buf@.skip(consumed as int));
                }
                self.buf = rest;
                UbxNext::Packet(packet)
            },
            UbxParse::Incomplete => {
                if self.buf.len() >= self.cap {
                    // the window is full yet holds no complete packet
                    self.buf = Vec::new();
                    UbxNext::Discarded
                } else {
                    UbxNext::NeedMore
                }
            },
            UbxParse::Error => {
                self.buf = Vec::new();
                UbxNext::Discarded
            },
        }
    }
}

} // verus!
