//! GDL 90 serialization: CRC-16/CCITT framed, byte-stuffed records together
//! with the field encoders (altitude, course, latitude/longitude) and the
//! per-tick protocol state machine that turns reports into wire payloads.

use crate::fisb::FISBData;
use crate::handle::PushableHandle;
use crate::ownship::Ownship;
use crate::payload::{Payload, PayloadModel};
use crate::report::{Report, ReportModel};
use crate::traffic::{AddressType, HeadingType, Target, TargetModel, TrafficSource, FRESH_WINDOW_MS};
use crate::util::{div_round, div_trunc, rem_euclid, round_div, trunc_div};
use crate::views::dvs;
use vstd::prelude::*;
use vstd::std_specs::iter::IteratorSpec;

verus! {

/// Flag byte that delimits every frame.
pub const FLAG_BYTE: u8 = 0x7E;

/// Escape byte used by the byte-stuffing layer.
pub const ESCAPE_BYTE: u8 = 0x7D;

/// CRC-16/CCITT lookup table (polynomial 0x1021, init 0x0000).
pub const CRC16_TABLE: [u16; 256] = [
    0x0000, 0x1021, 0x2042, 0x3063, 0x4084, 0x50A5, 0x60C6, 0x70E7, 0x8108, 0x9129, 0xA14A, 0xB16B,
    0xC18C, 0xD1AD, 0xE1CE, 0xF1EF, 0x1231, 0x0210, 0x3273, 0x2252, 0x52B5, 0x4294, 0x72F7, 0x62D6,
    0x9339, 0x8318, 0xB37B, 0xA35A, 0xD3BD, 0xC39C, 0xF3FF, 0xE3DE, 0x2462, 0x3443, 0x0420, 0x1401,
    0x64E6, 0x74C7, 0x44A4, 0x5485, 0xA56A, 0xB54B, 0x8528, 0x9509, 0xE5EE, 0xF5CF, 0xC5AC, 0xD58D,
    0x3653, 0x2672, 0x1611, 0x0630, 0x76D7, 0x66F6, 0x5695, 0x46B4, 0xB75B, 0xA77A, 0x9719, 0x8738,
    0xF7DF, 0xE7FE, 0xD79D, 0xC7BC, 0x48C4, 0x58E5, 0x6886, 0x78A7, 0x0840, 0x1861, 0x2802, 0x3823,
    0xC9CC, 0xD9ED, 0xE98E, 0xF9AF, 0x8948, 0x9969, 0xA90A, 0xB92B, 0x5AF5, 0x4AD4, 0x7AB7, 0x6A96,
    0x1A71, 0x0A50, 0x3A33, 0x2A12, 0xDBFD, 0xCBDC, 0xFBBF, 0xEB9E, 0x9B79, 0x8B58, 0xBB3B, 0xAB1A,
    0x6CA6, 0x7C87, 0x4CE4, 0x5CC5, 0x2C22, 0x3C03, 0x0C60, 0x1C41, 0xEDAE, 0xFD8F, 0xCDEC, 0xDDCD,
    0xAD2A, 0xBD0B, 0x8D68, 0x9D49, 0x7E97, 0x6EB6, 0x5ED5, 0x4EF4, 0x3E13, 0x2E32, 0x1E51, 0x0E70,
    0xFF9F, 0xEFBE, 0xDFDD, 0xCFFC, 0xBF1B, 0xAF3A, 0x9F59, 0x8F78, 0x9188, 0x81A9, 0xB1CA, 0xA1EB,
    0xD10C, 0xC12D, 0xF14E, 0xE16F, 0x1080, 0x00A1, 0x30C2, 0x20E3, 0x5004, 0x4025, 0x7046, 0x6067,
    0x83B9, 0x9398, 0xA3FB, 0xB3DA, 0xC33D, 0xD31C, 0xE37F, 0xF35E, 0x02B1, 0x1290, 0x22F3, 0x32D2,
    0x4235, 0x5214, 0x6277, 0x7256, 0xB5EA, 0xA5CB, 0x95A8, 0x8589, 0xF56E, 0xE54F, 0xD52C, 0xC50D,
    0x34E2, 0x24C3, 0x14A0, 0x0481, 0x7466, 0x6447, 0x5424, 0x4405, 0xA7DB, 0xB7FA, 0x8799, 0x97B8,
    0xE75F, 0xF77E, 0xC71D, 0xD73C, 0x26D3, 0x36F2, 0x0691, 0x16B0, 0x6657, 0x7676, 0x4615, 0x5634,
    0xD94C, 0xC96D, 0xF90E, 0xE92F, 0x99C8, 0x89E9, 0xB98A, 0xA9AB, 0x5844, 0x4865, 0x7806, 0x6827,
    0x18C0, 0x08E1, 0x3882, 0x28A3, 0xCB7D, 0xDB5C, 0xEB3F, 0xFB1E, 0x8BF9, 0x9BD8, 0xABBB, 0xBB9A,
    0x4A75, 0x5A54, 0x6A37, 0x7A16, 0x0AF1, 0x1AD0, 0x2AB3, 0x3A92, 0xFD2E, 0xED0F, 0xDD6C, 0xCD4D,
    0xBDAA, 0xAD8B, 0x9DE8, 0x8DC9, 0x7C26, 0x6C07, 0x5C64, 0x4C45, 0x3CA2, 0x2C83, 0x1CE0, 0x0CC1,
    0xEF1F, 0xFF3E, 0xCF5D, 0xDF7C, 0xAF9B, 0xBFBA, 0x8FD9, 0x9FF8, 0x6E17, 0x7E36, 0x4E55, 0x5E74,
    0x2E93, 0x3EB2, 0x0ED1, 0x1EF0,
];

/// One table-driven CRC update step.
pub open spec fn crc16_step(crc: u16, b: u8) -> u16 {
    CRC16_TABLE[(crc >> 8) as int] ^ ((crc << 8) ^ (b as u16))
}

/// CRC-16/CCITT of a byte sequence, folded left with init 0x0000.
pub open spec fn crc16_spec(data: Seq<u8>) -> u16
    decreases data.len(),
{
    if data.len() == 0 {
        0u16
    } else {
        crc16_step(crc16_spec(data.drop_last()), data.last())
    }
}

/// How the byte-stuffing layer renders a single message byte.
pub open spec fn stuff_byte(b: u8) -> Seq<u8> {
    if b == FLAG_BYTE || b == ESCAPE_BYTE {
        seq![ESCAPE_BYTE, b ^ 0x20]
    } else {
        seq![b]
    }
}

/// Byte-stuffed rendering of a whole message.
pub open spec fn stuff_spec(m: Seq<u8>) -> Seq<u8>
    decreases m.len(),
{
    if m.len() == 0 {
        Seq::<u8>::empty()
    } else {
        stuff_byte(m[0]) + stuff_spec(m.skip(1))
    }
}

/// The two CRC bytes appended to a message, low byte first.
pub open spec fn crc_bytes(msg: Seq<u8>) -> Seq<u8> {
    seq![(crc16_spec(msg) & 0xFF) as u8, (crc16_spec(msg) >> 8) as u8]
}

/// A complete frame: flag, stuffed message-plus-CRC, flag.
pub open spec fn frame_spec(msg: Seq<u8>) -> Seq<u8> {
    seq![FLAG_BYTE] + stuff_spec(msg + crc_bytes(msg)) + seq![FLAG_BYTE]
}

/// Inverse of `stuff_spec`: `None` when the escaped text is malformed.
pub open spec fn unstuff_spec(s: Seq<u8>) -> Option<Seq<u8>>
    decreases s.len(),
{
    if s.len() == 0 {
        Some(Seq::<u8>::empty())
    } else if s[0] == ESCAPE_BYTE {
        if s.len() < 2 {
            None
        } else {
            match unstuff_spec(s.skip(2)) {
                Some(rest) => Some(seq![s[1] ^ 0x20] + rest),
                None => None,
            }
        }
    } else {
        match unstuff_spec(s.skip(1)) {
            Some(rest) => Some(seq![s[0]] + rest),
            None => None,
        }
    }
}

proof fn lemma_shr8_bound(c: u16)
    by (bit_vector)
    ensures
        (c >> 8) < 256,
{
}

proof fn lemma_xor20_involution()
    by (bit_vector)
    ensures
        forall|b: u8| #[trigger] ((b ^ 0x20) ^ 0x20) == b,
        forall|b: u8| (b == 0x7Eu8 || b == 0x7Du8) ==> (#[trigger] (b ^ 0x20)) != 0x7Eu8 && (b
            ^ 0x20) != 0x7Du8,
{
}

/// Stuffing distributes over concatenation.
pub proof fn lemma_stuff_append(a: Seq<u8>, b: Seq<u8>)
    ensures
        stuff_spec(a + b) == stuff_spec(a) + stuff_spec(b),
    decreases a.len(),
{
    if a.len() == 0 {
        assert(a + b =~= b);
        assert(stuff_spec(a) + stuff_spec(b) =~= stuff_spec(b));
    } else {
        lemma_stuff_append(a.skip(1), b);
        assert((a + b).skip(1) =~= a.skip(1) + b);
        assert(stuff_byte((a + b)[0]) + (stuff_spec(a.skip(1)) + stuff_spec(b)) =~= (stuff_byte(
            a[0],
        ) + stuff_spec(a.skip(1))) + stuff_spec(b));
    }
}

/// Unstuffing inverts stuffing: the byte-stuffed rendering of any message
/// decodes back to exactly that message.
pub proof fn lemma_unstuff_stuff(m: Seq<u8>)
    ensures
        unstuff_spec(stuff_spec(m)) == Some(m),
    decreases m.len(),
{
    lemma_xor20_involution();
    if m.len() == 0 {
    } else {
        lemma_unstuff_stuff(m.skip(1));
        let s = stuff_spec(m);
        if m[0] == FLAG_BYTE || m[0] == ESCAPE_BYTE {
            assert(s =~= seq![ESCAPE_BYTE, m[0] ^ 0x20] + stuff_spec(m.skip(1)));
            assert(s.skip(2) =~= stuff_spec(m.skip(1)));
            assert(seq![(m[0] ^ 0x20) ^ 0x20] + m.skip(1) =~= m);
        } else {
            assert(s =~= seq![m[0]] + stuff_spec(m.skip(1)));
            assert(s.skip(1) =~= stuff_spec(m.skip(1)));
            assert(seq![m[0]] + m.skip(1) =~= m);
        }
    }
}

/// Every byte-stuffed rendering is free of flag bytes, and every escape byte
/// in it is immediately followed by the escaped original.
pub proof fn lemma_stuff_clean(m: Seq<u8>)
    ensures
        forall|i: int| 0 <= i < stuff_spec(m).len() ==> #[trigger] stuff_spec(m)[i] != FLAG_BYTE,
        forall|i: int|
            0 <= i < stuff_spec(m).len() && #[trigger] stuff_spec(m)[i] == ESCAPE_BYTE ==> i + 1
                < stuff_spec(m).len() && (stuff_spec(m)[i + 1] == 0x5Eu8 || stuff_spec(m)[i + 1]
                == 0x5Du8),
    decreases m.len(),
{
    if m.len() == 0 {
    } else {
        lemma_stuff_clean(m.skip(1));
        let s = stuff_spec(m);
        let rest = stuff_spec(m.skip(1));
        let head = stuff_byte(m[0]);
        assert(s =~= head + rest);
        assert(0x7Eu8 ^ 0x20 == 0x5Eu8) by (bit_vector);
        assert(0x7Du8 ^ 0x20 == 0x5Du8) by (bit_vector);
        assert forall|i: int| 0 <= i < s.len() implies s[i] != FLAG_BYTE by {
            if i >= head.len() {
                assert(s[i] == rest[i - head.len()]);
            }
        }
        assert forall|i: int| 0 <= i < s.len() && #[trigger] s[i] == ESCAPE_BYTE implies i + 1
            < s.len() && (s[i + 1] == 0x5Eu8 || s[i + 1] == 0x5Du8) by {
            if i >= head.len() {
                assert(s[i] == rest[i - head.len()]);
                assert(rest[i - head.len() + 1] == s[i + 1]);
            }
        }
    }
}

/// The 12-bit pressure-altitude field: out-of-range altitudes map to the
/// invalid sentinel 0xFFF, in-range ones to `round((ft + 1000) / 25)`
/// (adding 12 before a floor division by 25 rounds to the nearest step).
pub open spec fn alt_encode(a: int) -> u16 {
    if a < -1000 || a > 101350 {
        0xFFFu16
    } else {
        ((a + 1012) / 25) as u16
    }
}

/// Pressure altitude in ft encoded as the 12-bit GDL 90 altitude field.
pub fn alt_to_gdl90(a: i64) -> (r: u16)
    ensures
        r == alt_encode(a as int),
{
    if a < -1000 || a > 101350 {
        0xFFF
    } else {
        ((a + 1012) / 25) as u16
    }
}

/// The altitude a 12-bit field value stands for, in ft.
pub open spec fn alt_decode(e: u16) -> int {
    e * 25 - 1000
}

/// Decoding an encoded in-range altitude recovers it to within half of the
/// 25 ft step.
pub proof fn lemma_alt_roundtrip(a: int)
    requires
        -1000 <= a <= 101350,
    ensures
        alt_encode(a) != 0xFFF,
        -12 <= alt_decode(alt_encode(a)) - a <= 12,
{
    vstd::arithmetic::div_mod::lemma_fundamental_div_mod(a + 1012, 25);
    vstd::arithmetic::div_mod::lemma_div_is_ordered(a + 1012, 102362, 25);
}

/// The one-byte course field: degrees normalized to `[0, 360)` and floored
/// into 256 steps.
pub open spec fn crs_encode(c: int) -> u8 {
    (((c % 360) * 256) / 360) as u8
}

/// Course in whole degrees encoded as the GDL 90 track byte.
pub fn crs_to_gdl90(c: u16) -> (r: u8)
    ensures
        r == crs_encode(c as int),
{
    let n: u32 = (c as u32) % 360;
    proof {
        vstd::arithmetic::div_mod::lemma_div_is_ordered(n as int * 256, 359int * 256, 360);
        vstd::arithmetic::div_mod::lemma_div_pos_is_pos(n as int * 256, 360);
    }
    ((n * 256) / 360) as u8
}

/// The course byte for a track held in 1e-5 degree steps.
pub open spec fn crs_encode_e5(units: int) -> u8 {
    (((units % 36000000) * 256) / 36000000) as u8
}

/// Track in 1e-5 degree steps encoded as the GDL 90 track byte.
pub fn crs_e5_to_gdl90(units: i32) -> (r: u8)
    ensures
        r == crs_encode_e5(units as int),
{
    let n: u64 = rem_euclid(units as i64, 36000000) as u64;
    proof {
        vstd::arithmetic::div_mod::lemma_div_is_ordered(n as int * 256, 35999999int * 256, 36000000);
        vstd::arithmetic::div_mod::lemma_div_pos_is_pos(n as int * 256, 36000000);
    }
    ((n * 256) / 36000000) as u8
}

/// A latitude or longitude in semicircle units reduced to its 24-bit
/// two's-complement field value.
pub open spec fn latlon24(units: i32) -> int {
    (units as int) % 0x1000000
}

/// The three big-endian bytes of a 24-bit field value.
pub open spec fn be24(v: int) -> (u8, u8, u8)
    recommends
        0 <= v < 0x1000000,
{
    (((v / 0x10000) % 0x100) as u8, ((v / 0x100) % 0x100) as u8, ((v % 0x100) as u8))
}

/// Latitude or longitude in semicircle units rendered as the three
/// big-endian message bytes.
pub fn latlon_to_gdl90(units: i32) -> (r: (u8, u8, u8))
    ensures
        r == be24(latlon24(units)),
{
    let w: u64 = rem_euclid(units as i64, 0x1000000) as u64;
    (((w / 0x10000) % 0x100) as u8, ((w / 0x100) % 0x100) as u8, (w % 0x100) as u8)
}

/// Frame a message: append its CRC, byte-stuff the result and wrap it in flag
/// bytes.  `buf` holds the message followed by two spare bytes that receive
/// the CRC; the framed record is returned.
pub fn prepare_payload(buf: &mut Vec<u8>) -> (r: Vec<u8>)
    requires
        2 <= old(buf).len() < usize::MAX - 4,
    ensures
        r@ == frame_spec(old(buf)@.take(old(buf).len() - 2)),
        // the message bytes are untouched and the two spare bytes now hold
        // the CRC, low byte first
        final (buf)@ == old(buf)@.take(old(buf).len() - 2) + crc_bytes(
            old(buf)@.take(old(buf).len() - 2),
        ),
{
    let len: usize = buf.len() - 2;
    let ghost msg = buf@.take(len as int);

    let mut crc: u16 = 0;
    let mut i: usize = 0;
    while i < len
        invariant
            i <= len,
            len + 2 == buf@.len(),
            buf@ == old(buf)@,
            crc == crc16_spec(buf@.take(i as int)),
        decreases len - i,
    {
        proof {
            lemma_shr8_bound(crc);
            assert(buf@.take(i + 1).drop_last() =~= buf@.take(i as int));
            assert(buf@.take(i + 1).last() == buf@[i as int]);
        }
        crc = CRC16_TABLE[(crc >> 8) as usize] ^ ((crc << 8) ^ (buf[i] as u16));
        i = i + 1;
    }
    assert(buf@.take(len as int) =~= msg);

    proof {
        lemma_shr8_bound(crc);
    }
    buf.set(len, (crc & 0xFF) as u8);
    buf.set(len + 1, (crc >> 8) as u8);
    assert(buf@ =~= msg + crc_bytes(msg));

    let mut tmp: Vec<u8> = Vec::new();
    tmp.push(FLAG_BYTE);

    let n: usize = buf.len();
    let mut j: usize = 0;
    while j < n
        invariant
            j <= n,
            n == buf@.len(),
            buf@ == msg + crc_bytes(msg),
            tmp@ == seq![FLAG_BYTE] + stuff_spec(buf@.take(j as int)),
        decreases n - j,
    {
        let b = buf[j];
        proof {
            assert(buf@.take(j + 1) =~= buf@.take(j as int) + seq![buf@[j as int]]);
            lemma_stuff_append(buf@.take(j as int), seq![buf@[j as int]]);
            assert(seq![b].skip(1) =~= Seq::<u8>::empty());
            assert(stuff_spec(Seq::<u8>::empty()) == Seq::<u8>::empty());
            assert(seq![b][0] == b);
            assert(stuff_spec(seq![b]) =~= stuff_byte(b) + stuff_spec(seq![b].skip(1)));
            assert(stuff_spec(seq![b]) =~= stuff_byte(b));
        }
        if b == FLAG_BYTE || b == ESCAPE_BYTE {
            tmp.push(ESCAPE_BYTE);
            tmp.push(b ^ 0x20);
        } else {
            tmp.push(b);
        }
        proof {
            assert(tmp@ =~= seq![FLAG_BYTE] + stuff_spec(buf@.take(j + 1)));
        }
        j = j + 1;
    }
    assert(buf@.take(n as int) =~= buf@);

    tmp.push(FLAG_BYTE);
    proof {
        assert(tmp@ =~= frame_spec(msg));
    }
    tmp
}

/// Undo framing: strip the flag bytes, un-stuff the interior and check the
/// CRC.  Returns the message bytes (without CRC) when the frame is well
/// formed, `None` otherwise.
pub fn decode_frame(frame: &Vec<u8>) -> (r: Option<Vec<u8>>)
    ensures
        match r {
            Some(msg) => frame@.len() >= 2 && frame@[0] == FLAG_BYTE && frame@.last() == FLAG_BYTE
                && unstuff_spec(frame@.subrange(1, frame@.len() - 1)) == Some(
                msg@ + crc_bytes(msg@),
            ),
            None => true,
        },
        forall|msg: Seq<u8>| frame@ == frame_spec(msg) ==> r is Some && r.unwrap()@ == msg,
{
    proof {
        lemma_xor20_involution();
    }
    if frame.len() < 2 || frame[0] != FLAG_BYTE || frame[frame.len() - 1] != FLAG_BYTE {
        proof {
            assert forall|msg: Seq<u8>| frame@ == frame_spec(msg) implies false by {
                assert(frame@[0] == FLAG_BYTE);
                assert(frame@.last() == FLAG_BYTE);
            }
        }
        return None;
    }
    let interior_len: usize = frame.len() - 1;
    let ghost interior = frame@.subrange(1, interior_len as int);

    let mut out: Vec<u8> = Vec::new();
    let mut i: usize = 1;
    let mut bad: bool = false;
    while i < interior_len
        invariant
            1 <= i <= interior_len,
            interior_len + 1 == frame@.len(),
            interior == frame@.subrange(1, interior_len as int),
            !bad ==> unstuff_spec(interior) == match unstuff_spec(
                frame@.subrange(i as int, interior_len as int),
            ) {
                Some(rest) => Some(out@ + rest),
                None => None::<Seq<u8>>,
            },
            bad ==> unstuff_spec(interior) is None,
        decreases interior_len - i,
    {
        let ghost pre = frame@.subrange(i as int, interior_len as int);
        let b = frame[i];
        assert(pre[0] == b);
        if b == ESCAPE_BYTE {
            if i + 1 >= interior_len {
                bad = true;
                i = interior_len;
            } else {
                assert(pre.skip(2) =~= frame@.subrange(i + 2, interior_len as int));
                out.push(frame[i + 1] ^ 0x20);
                i = i + 2;
            }
        } else {
            assert(pre.skip(1) =~= frame@.subrange(i + 1, interior_len as int));
            out.push(b);
            i = i + 1;
        }
    }
    if bad {
        proof {
            assert forall|msg: Seq<u8>| frame@ == frame_spec(msg) implies false by {
                lemma_unstuff_stuff(msg + crc_bytes(msg));
                assert(frame@.subrange(1, frame@.len() - 1) =~= stuff_spec(msg + crc_bytes(msg)));
            }
        }
        return None;
    }
    assert(frame@.subrange(interior_len as int, interior_len as int) =~= Seq::<u8>::empty());
    assert(unstuff_spec(interior) == Some(out@));

    // The un-stuffed text must hold at least the two CRC bytes.
    if out.len() < 2 {
        proof {
            assert forall|msg: Seq<u8>| frame@ == frame_spec(msg) implies false by {
                lemma_unstuff_stuff(msg + crc_bytes(msg));
                assert(frame@.subrange(1, frame@.len() - 1) =~= stuff_spec(msg + crc_bytes(msg)));
                assert(out@ == msg + crc_bytes(msg));
            }
        }
        return None;
    }
    let msg_len: usize = out.len() - 2;
    let mut crc: u16 = 0;
    let mut k: usize = 0;
    while k < msg_len
        invariant
            k <= msg_len,
            msg_len + 2 == out@.len(),
            crc == crc16_spec(out@.take(k as int)),
        decreases msg_len - k,
    {
        proof {
            lemma_shr8_bound(crc);
            assert(out@.take(k + 1).drop_last() =~= out@.take(k as int));
            assert(out@.take(k + 1).last() == out@[k as int]);
        }
        crc = CRC16_TABLE[(crc >> 8) as usize] ^ ((crc << 8) ^ (out[k] as u16));
        k = k + 1;
    }
    let lo = out[msg_len];
    let hi = out[msg_len + 1];
    if lo != (crc & 0xFF) as u8 || hi != (crc >> 8) as u8 {
        proof {
            assert forall|msg: Seq<u8>| frame@ == frame_spec(msg) implies false by {
                lemma_unstuff_stuff(msg + crc_bytes(msg));
                assert(frame@.subrange(1, frame@.len() - 1) =~= stuff_spec(msg + crc_bytes(msg)));
                assert(out@ == msg + crc_bytes(msg));
                assert((msg + crc_bytes(msg)).take(msg.len() as int) =~= msg);
                assert(out@.take(msg_len as int) =~= msg);
            }
        }
        return None;
    }
    proof {
        assert forall|m: Seq<u8>| frame@ == frame_spec(m) implies out@.take(msg_len as int) == m by {
            lemma_unstuff_stuff(m + crc_bytes(m));
            assert(frame@.subrange(1, frame@.len() - 1) =~= stuff_spec(m + crc_bytes(m)));
            assert(out@ == m + crc_bytes(m));
            assert(out@.take(msg_len as int) =~= m);
        }
        assert(out@ =~= out@.take(msg_len as int) + crc_bytes(out@.take(msg_len as int)));
    }
    let mut msg = out;
    msg.truncate(msg_len);
    Some(msg)
}

/// The low byte of a character's code point, as rendered into callsign
/// positions.
pub open spec fn char_byte(c: char) -> u8 {
    ((c as u32) % 256) as u8
}

/// The six callsign bytes: up to six characters, zero-padded.
pub open spec fn callsign_field(cs: Seq<char>) -> Seq<u8> {
    Seq::new(
        6,
        |k: int|
            if k < cs.len() {
                char_byte(cs[k])
            } else {
                0u8
            },
    )
}

/// A squawk rendered as four zero-padded decimal digits into the callsign
/// positions.
pub open spec fn squawk_field(sq: u16) -> Seq<u8> {
    seq![
        (48 + (sq / 1000) % 10) as u8,
        (48 + (sq / 100) % 10) as u8,
        (48 + (sq / 10) % 10) as u8,
        (48 + sq % 10) as u8,
        0u8,
        0u8,
    ]
}

pub open spec fn pm(queueable: bool, payload: Seq<u8>) -> PayloadModel {
    PayloadModel { queueable, payload }
}

/// The position byte group of a traffic message: latitude and longitude
/// bytes and the integrity-category high nibble, all zero unless the
/// position is fresh.
pub open spec fn traffic_pos_spec(t: TargetModel, now: u64) -> ((u8, u8, u8), (u8, u8, u8), u8) {
    let pos_fresh = t.lat_lon matches Some((_, i)) && now - i < FRESH_WINDOW_MS;
    let lat_b = if pos_fresh {
        be24(latlon24(t.lat_lon.unwrap().0.0))
    } else {
        (0u8, 0u8, 0u8)
    };
    let lon_b = if pos_fresh {
        be24(latlon24(t.lat_lon.unwrap().0.1))
    } else {
        (0u8, 0u8, 0u8)
    };
    let b13_nic: u8 = if pos_fresh && t.nic is Some {
        ((t.nic.unwrap() % 16) * 16) as u8
    } else {
        0
    };
    (lat_b, lon_b, b13_nic)
}

/// The altitude byte group of a traffic message: the high byte and the
/// high-nibble part of the miscellaneous byte.  An altitude that is missing
/// or older than the freshness window encodes the invalid sentinel; a fresh
/// one is corrected toward the available ownship altitude source before
/// encoding.
pub open spec fn traffic_alt_spec(t: TargetModel, now: u64, pres_alt_valid: bool) -> (u8, u8) {
    if t.altitude is None {
        (0xFFu8, 0xF0u8)
    } else if t.altitude matches Some((_, _, i)) && now - i < FRESH_WINDOW_MS {
        let alt = t.altitude.unwrap().0;
        let ty = t.altitude.unwrap().1;
        let delta: int = if t.gnss_delta is Some {
            t.gnss_delta.unwrap() as int
        } else {
            0
        };
        let corrected: int = if !pres_alt_valid && ty == crate::traffic::AltitudeType::Baro {
            alt + delta
        } else if pres_alt_valid && ty == crate::traffic::AltitudeType::GNSS {
            alt - delta
        } else {
            alt as int
        };
        let a12 = alt_encode(corrected);
        ((a12 / 16) as u8, ((a12 % 16) * 16) as u8)
    } else {
        (0xFFu8, 0xF0u8)
    }
}

/// The speed byte group of a traffic message: the invalid sentinel unless
/// the speed is fresh.
pub open spec fn traffic_speed_spec(t: TargetModel, now: u64) -> (u8, u8) {
    if t.speed matches Some((_, _, i)) && now - i < FRESH_WINDOW_MS {
        let v = t.speed.unwrap().0;
        (((v % 4096) / 16) as u8, ((v % 16) * 16) as u8)
    } else {
        (0xFFu8, 0xF0u8)
    }
}

/// The vertical-speed byte group of a traffic message: the 12-bit
/// two's-complement rate in 64 ft/min steps when fresh, else the
/// no-rate-available nibble.
pub open spec fn traffic_vs_spec(t: TargetModel, now: u64) -> (u8, u8) {
    if t.vs matches Some((_, i)) && now - i < FRESH_WINDOW_MS {
        let v12 = round_div(t.vs.unwrap().0 as int, 64) % 4096;
        ((v12 / 256) as u8, (v12 % 256) as u8)
    } else {
        (8u8, 0u8)
    }
}

/// The six callsign positions: the callsign when present, else the squawk
/// digits, else blank.
pub open spec fn traffic_tail6_spec(t: TargetModel) -> Seq<u8> {
    if t.callsign is Some {
        callsign_field(t.callsign.unwrap())
    } else if t.squawk is Some {
        squawk_field(t.squawk.unwrap())
    } else {
        callsign_field(Seq::<char>::empty())
    }
}

/// The address byte group of a traffic message: the alert/address-type
/// byte and the 24-bit address, big-endian.
pub open spec fn traffic_addr_spec(t: TargetModel) -> (u8, u8, u8, u8) {
    let b1: u8 = match t.addr.1 {
        AddressType::ADSBICAO => 0,
        AddressType::ADSRICAO => 0,
        AddressType::ADSBOther => 1,
        AddressType::ADSROther => 1,
        AddressType::TISBICAO => 2,
        AddressType::TISBOther => 3,
        AddressType::Unknown => 3,
    };
    let a = t.addr.0;
    (b1, ((a / 0x10000) % 0x100) as u8, ((a / 0x100) % 0x100) as u8, (a % 0x100) as u8)
}

/// The low-nibble flags of the miscellaneous byte: the heading kind when
/// the heading is fresh, and the airborne bit unless the target is known to
/// be on the ground.
pub open spec fn traffic_misc_flags_spec(t: TargetModel, now: u64) -> u8 {
    let hdg: u8 = if t.heading matches Some((_, _, i)) && now - i < FRESH_WINDOW_MS {
        match t.heading.unwrap().1 {
            HeadingType::True => 1,
            HeadingType::Mag => 2,
        }
    } else {
        0
    };
    let air: u8 = if t.on_ground != Some(true) {
        8
    } else {
        0
    };
    (hdg + air) as u8
}

/// The trailing identification bytes: the track byte (whenever a heading is
/// known at all), the emitter category, the source and address-qualifier
/// letters, and the emergency flag for the distress squawks.
pub open spec fn traffic_trailer_spec(t: TargetModel) -> (u8, u8, u8, u8, u8) {
    let b17: u8 = if t.heading is Some {
        crs_encode(t.heading.unwrap().0 as int)
    } else {
        0
    };
    let b18: u8 = if t.category is Some {
        t.category.unwrap()
    } else {
        0
    };
    let b19: u8 = match t.source {
        TrafficSource::UAT => 117,
        TrafficSource::ES => 101,
    };
    let b20: u8 = match t.addr.1 {
        AddressType::ADSBICAO => 97,
        AddressType::ADSBOther => 97,
        AddressType::ADSRICAO => 114,
        AddressType::ADSROther => 114,
        AddressType::TISBICAO => 116,
        AddressType::TISBOther => 116,
        AddressType::Unknown => 120,
    };
    let b27: u8 = if t.squawk == Some(7700u16) || t.squawk == Some(7600u16) || t.squawk == Some(
        7500u16,
    ) {
        0x10
    } else {
        0
    };
    (b17, b18, b19, b20, b27)
}

/// The 28 bytes of a traffic message (identifier 0x14), before CRC and
/// framing.
pub open spec fn traffic_msg_spec(t: TargetModel, now: u64, pres_alt_valid: bool) -> Seq<u8> {
    let addr = traffic_addr_spec(t);
    let pos = traffic_pos_spec(t, now);
    let lat_b = pos.0;
    let lon_b = pos.1;
    let b11_b12alt = traffic_alt_spec(t, now, pres_alt_valid);
    let b12 = (b11_b12alt.1 + traffic_misc_flags_spec(t, now)) as u8;
    let b13 = (pos.2 + (
    if t.nacp is Some {
        t.nacp.unwrap() % 16
    } else {
        0
    })) as u8;
    let b14_b15spd = traffic_speed_spec(t, now);
    let b15vs_b16 = traffic_vs_spec(t, now);
    let b15 = (b14_b15spd.1 + b15vs_b16.0) as u8;
    let trailer = traffic_trailer_spec(t);
    seq![
        0x14u8,
        addr.0,
        addr.1,
        addr.2,
        addr.3,
        lat_b.0,
        lat_b.1,
        lat_b.2,
        lon_b.0,
        lon_b.1,
        lon_b.2,
        b11_b12alt.0,
        b12,
        b13,
        b14_b15spd.0,
        b15,
        b15vs_b16.1,
        trailer.0,
        trailer.1,
        trailer.2,
        trailer.3,
    ] + traffic_tail6_spec(t) + seq![trailer.4]
}

/// The 28 bytes of an ownship message (identifier 0x0A), before CRC and
/// framing.
pub open spec fn ownship_msg_spec(o: Ownship) -> Seq<u8> {
    let lat_b = be24(latlon24(o.lat));
    let lon_b = be24(latlon24(o.lon));
    let b11_b12: (u8, u8) = match o.pressure_altitude {
        Some(pa) => {
            let a12 = alt_encode(pa as int);
            ((a12 / 16) as u8, ((a12 % 16) * 16 + 9) as u8)
        },
        None => (0xFFu8, 0xF9u8),
    };
    let b13 = ((o.nic % 16) * 16 + o.nacp % 16) as u8;
    let b14 = ((o.gs % 4096) / 16) as u8;
    let b15 = ((o.gs % 16) * 16 + 8) as u8;
    let b17 = crs_encode_e5(o.true_track as int);
    seq![
        0x0Au8,
        0x01u8,
        0xF0u8,
        0u8,
        0u8,
        lat_b.0,
        lat_b.1,
        lat_b.2,
        lon_b.0,
        lon_b.1,
        lon_b.2,
        b11_b12.0,
        b11_b12.1,
        b13,
        b14,
        b15,
        0u8,
        b17,
        0x01u8,
        80u8,
        105u8,
        116u8,
        111u8,
        116u8,
        0u8,
        0u8,
        0u8,
        0u8,
    ]
}

/// The 5 bytes of an ownship geometric-altitude message (identifier 0x0B):
/// the altitude above mean sea level in 5 ft steps, big-endian, then a fixed
/// vertical-figure-of-merit of 10 meters.
pub open spec fn geo_alt_msg_spec(o: Ownship) -> Seq<u8> {
    let w16 = trunc_div(o.msl_altitude as int, 5) % 0x10000;
    seq![0x0Bu8, (w16 / 256) as u8, (w16 % 256) as u8, 0u8, 0x0Au8]
}

/// The 7 bytes of a heartbeat message (identifier 0x00): status bits and the
/// seconds since midnight UTC packed across three bytes.
pub open spec fn heartbeat_msg_spec(ownship_valid: bool, utc_sec: i64) -> Seq<u8> {
    let delta = (utc_sec as int) % 86400;
    let b1: u8 = if ownship_valid {
        0x91
    } else {
        0x11
    };
    seq![
        0u8,
        b1,
        ((delta / 0x10000) * 128 + 1) as u8,
        (delta % 256) as u8,
        ((delta / 256) % 256) as u8,
        0u8,
        0u8,
    ]
}

/// The 39 bytes of the device identification message (identifier 0x65):
/// an invalid serial number, the device and display names, and a mean sea
/// level geometric altitude datum.
pub open spec fn foreflight_id_msg_spec() -> Seq<u8> {
    seq![
        0x65u8,
        0u8,
        0x01u8,
        0xFFu8,
        0xFFu8,
        0xFFu8,
        0xFFu8,
        0xFFu8,
        0xFFu8,
        0xFFu8,
        0xFFu8,
        80u8,
        105u8,
        116u8,
        111u8,
        116u8,
        0u8,
        0u8,
        0u8,
        0u8,
        80u8,
        105u8,
        116u8,
        111u8,
        116u8,
        0u8,
        0u8,
        0u8,
        0u8,
        0u8,
        0u8,
        0u8,
        0u8,
        0u8,
        0u8,
        0u8,
        0u8,
        0u8,
        0x01u8,
    ]
}

/// The 436 bytes of an uplink message (identifier 0x07): a placeholder time
/// of reception and the 432-byte uplink payload.
pub open spec fn uplink_msg_spec(p: Seq<u8>) -> Seq<u8> {
    seq![0x07u8, 0xFFu8, 0xFFu8, 0xFFu8] + p
}

/// The protocol state: validity latches and the two rate counters.
#[derive(Clone, Copy, Debug, PartialEq)]
pub struct GDL90 {
    pub ownship_valid: bool,
    pub heartbeat_counter: u32,
    pub ownship_counter: u32,
    /// True once a report with a pressure-altitude source has been seen.
    pub pres_alt_valid: bool,
}

impl GDL90 {
    pub fn new() -> (r: Self)
        ensures
            r == (GDL90 {
                ownship_valid: false,
                heartbeat_counter: 0,
                ownship_counter: 0,
                pres_alt_valid: false,
            }),
    {
        GDL90 {
            ownship_valid: false,
            heartbeat_counter: 0,
            ownship_counter: 0,
            pres_alt_valid: false,
        }
    }


    /// The position byte group for a traffic message.
    fn traffic_pos_bytes(e: &Target, clock: u64) -> (r: ((u8, u8, u8), (u8, u8, u8), u8))
        requires
            crate::traffic::target_wf(e.deep_view(), clock),
        ensures
            r == traffic_pos_spec(e.deep_view(), clock),
            r.2 <= 0xF0,
    {
        let mut lat_b: (u8, u8, u8) = (0, 0, 0);
        let mut lon_b: (u8, u8, u8) = (0, 0, 0);
        let mut b13_nic: u8 = 0;
        if let Some((ll, i)) = e.lat_lon {
            if clock - i < FRESH_WINDOW_MS {
                lat_b = latlon_to_gdl90(ll.0);
                lon_b = latlon_to_gdl90(ll.1);
                if let Some(nic) = e.nic {
                    b13_nic = (nic % 16) * 16;
                }
            }
        }
        (lat_b, lon_b, b13_nic)
    }

    /// The altitude byte group for a traffic message.
    fn traffic_alt_bytes(e: &Target, clock: u64, pres_alt_valid: bool) -> (r: (u8, u8))
        requires
            crate::traffic::target_wf(e.deep_view(), clock),
        ensures
            r == traffic_alt_spec(e.deep_view(), clock, pres_alt_valid),
            r.1 <= 0xF0,
    {
        match e.altitude {
            Some((alt, ty, i)) => {
                if clock - i < FRESH_WINDOW_MS {
                    let delta: i64 = match e.gnss_delta {
                        Some(d) => d as i64,
                        None => 0,
                    };
                    let corrected: i64 = if !pres_alt_valid && ty
                        == crate::traffic::AltitudeType::Baro {
                        alt as i64 + delta
                    } else if pres_alt_valid && ty == crate::traffic::AltitudeType::GNSS {
                        alt as i64 - delta
                    } else {
                        alt as i64
                    };
                    let a12: u16 = alt_to_gdl90(corrected);
                    ((a12 / 16) as u8, ((a12 % 16) * 16) as u8)
                } else {
                    (0xFF, 0xF0)
                }
            },
            None => (0xFF, 0xF0),
        }
    }

    /// The speed byte group for a traffic message.
    fn traffic_speed_bytes(e: &Target, clock: u64) -> (r: (u8, u8))
        requires
            crate::traffic::target_wf(e.deep_view(), clock),
        ensures
            r == traffic_speed_spec(e.deep_view(), clock),
            r.1 <= 0xF0,
    {
        if let Some((v, _, i)) = e.speed {
            if clock - i < FRESH_WINDOW_MS {
                return (((v % 4096) / 16) as u8, ((v % 16) * 16) as u8);
            }
        }
        (0xFF, 0xF0)
    }

    /// The vertical-speed byte group for a traffic message.
    fn traffic_vs_bytes(e: &Target, clock: u64) -> (r: (u8, u8))
        requires
            crate::traffic::target_wf(e.deep_view(), clock),
        ensures
            r == traffic_vs_spec(e.deep_view(), clock),
            r.0 <= 0x0F,
    {
        if let Some((v, i)) = e.vs {
            if clock - i < FRESH_WINDOW_MS {
                let vr: i64 = div_round(v as i64, 64);
                let v12: u16 = rem_euclid(vr, 4096) as u16;
                return ((v12 / 256) as u8, (v12 % 256) as u8);
            }
        }
        (8, 0)
    }

    /// The address byte group for a traffic message.
    fn traffic_addr_bytes(e: &Target) -> (r: (u8, u8, u8, u8))
        ensures
            r == traffic_addr_spec(e.deep_view()),
    {
        let b1: u8 = match e.addr.1 {
            AddressType::ADSBICAO => 0,
            AddressType::ADSRICAO => 0,
            AddressType::ADSBOther => 1,
            AddressType::ADSROther => 1,
            AddressType::TISBICAO => 2,
            AddressType::TISBOther => 3,
            AddressType::Unknown => 3,
        };
        let a: u32 = e.addr.0;
        (b1, ((a / 0x10000) % 0x100) as u8, ((a / 0x100) % 0x100) as u8, (a % 0x100) as u8)
    }

    /// The low-nibble flags of the miscellaneous byte.
    fn traffic_misc_flags(e: &Target, clock: u64) -> (r: u8)
        requires
            crate::traffic::target_wf(e.deep_view(), clock),
        ensures
            r == traffic_misc_flags_spec(e.deep_view(), clock),
            r <= 10,
    {
        let mut hdg: u8 = 0;
        if let Some((_, ty, i)) = e.heading {
            if clock - i < FRESH_WINDOW_MS {
                hdg = match ty {
                    HeadingType::True => 1,
                    HeadingType::Mag => 2,
                };
            }
        }
        let air: u8 = if e.on_ground != Some(true) {
            8
        } else {
            0
        };
        hdg + air
    }

    /// The trailing identification bytes for a traffic message.
    fn traffic_trailer_bytes(e: &Target) -> (r: (u8, u8, u8, u8, u8))
        ensures
            r == traffic_trailer_spec(e.deep_view()),
    {
        let b17: u8 = match e.heading {
            Some((h, _, _)) => crs_to_gdl90(h),
            None => 0,
        };
        let b18: u8 = match e.category {
            Some(c) => c,
            None => 0,
        };
        let b19: u8 = match e.source {
            TrafficSource::UAT => 117,
            TrafficSource::ES => 101,
        };
        let b20: u8 = match e.addr.1 {
            AddressType::ADSBICAO => 97,
            AddressType::ADSBOther => 97,
            AddressType::ADSRICAO => 114,
            AddressType::ADSROther => 114,
            AddressType::TISBICAO => 116,
            AddressType::TISBOther => 116,
            AddressType::Unknown => 120,
        };
        let b27: u8 = match e.squawk {
            Some(7700u16) => 0x10,
            Some(7600u16) => 0x10,
            Some(7500u16) => 0x10,
            _ => 0,
        };
        (b17, b18, b19, b20, b27)
    }

    /// The six callsign positions for a traffic message.
    fn traffic_tail6_bytes(e: &Target) -> (r: Vec<u8>)
        ensures
            r@ == traffic_tail6_spec(e.deep_view()),
            r@.len() == 6,
    {
        let mut tail6: Vec<u8> = Vec::new();
        tail6.push(0);
        tail6.push(0);
        tail6.push(0);
        tail6.push(0);
        tail6.push(0);
        tail6.push(0);
        match &e.callsign {
            Some(cs) => {
                broadcast use vstd::string::next_postcondition, vstd::string::axiom_spec_iter;

                let s = cs.as_str();
                let mut it = s.chars();
                let mut k: usize = 0;
                let mut done: bool = false;
                while k < 6 && !done
                    invariant
                        k <= 6,
                        tail6@.len() == 6,
                        !done ==> k <= cs@.len() && it.remaining() == cs@.skip(k as int),
                        !done ==> vstd::std_specs::iter::IteratorSpec::obeys_prophetic_iter_laws(
                            &it,
                        ),
                        done ==> cs@.len() <= k,
                        forall|j: int|
                            0 <= j < 6 ==> tail6@[j] == (if j < k && j < cs@.len() {
                                char_byte(cs@[j])
                            } else {
                                0u8
                            }),
                    decreases 6 - k + (if done {
                        0int
                    } else {
                        1int
                    }),
                {
                    match it.next() {
                        Some(c) => {
                            proof {
                                assert(cs@.skip(k as int)[0] == cs@[k as int]);
                                assert(cs@.skip(k as int).drop_first() =~= cs@.skip(k + 1));
                            }
                            tail6.set(k, ((c as u32) % 256) as u8);
                            k = k + 1;
                        },
                        None => {
                            proof {
                                assert(cs@.skip(k as int).len() == 0);
                            }
                            done = true;
                        },
                    }
                }
                proof {
                    assert(tail6@ =~= callsign_field(cs@));
                }
            },
            None => {
                match e.squawk {
                    Some(sq) => {
                        tail6.set(0, (48 + (sq / 1000) % 10) as u8);
                        tail6.set(1, (48 + (sq / 100) % 10) as u8);
                        tail6.set(2, (48 + (sq / 10) % 10) as u8);
                        tail6.set(3, (48 + sq % 10) as u8);
                        proof {
                            assert(tail6@ =~= squawk_field(e.squawk.unwrap()));
                        }
                    },
                    None => {
                        proof {
                            assert(tail6@ =~= callsign_field(Seq::<char>::empty()));
                        }
                    },
                }
            },
        }
        tail6
    }

    /// Build the 28 traffic message bytes, with the two spare bytes the
    /// framer fills appended.
    #[verifier::rlimit(100)]
    #[verifier::spinoff_prover]
    fn traffic_msg_vec(e: &Target, clock: u64, pres_alt_valid: bool) -> (r: Vec<u8>)
        requires
            crate::traffic::target_wf(e.deep_view(), clock),
        ensures
            r@.len() == 30,
            r@.take(28) == traffic_msg_spec(e.deep_view(), clock, pres_alt_valid),
    {
        let addr = Self::traffic_addr_bytes(e);
        let pos = Self::traffic_pos_bytes(e, clock);
        let lat_b = pos.0;
        let lon_b = pos.1;
        let alt_group = Self::traffic_alt_bytes(e, clock, pres_alt_valid);
        let b12: u8 = alt_group.1 + Self::traffic_misc_flags(e, clock);
        let b13: u8 = pos.2 + (match e.nacp {
            Some(n) => n % 16,
            None => 0,
        });
        let spd_group = Self::traffic_speed_bytes(e, clock);
        let vs_group = Self::traffic_vs_bytes(e, clock);
        let b15: u8 = spd_group.1 + vs_group.0;
        let trailer = Self::traffic_trailer_bytes(e);
        let tail6 = Self::traffic_tail6_bytes(e);

        let mut buf: Vec<u8> = Vec::new();
        buf.push(0x14);
        buf.push(addr.0);
        buf.push(addr.1);
        buf.push(addr.2);
        buf.push(addr.3);
        buf.push(lat_b.0);
        buf.push(lat_b.1);
        buf.push(lat_b.2);
        buf.push(lon_b.0);
        buf.push(lon_b.1);
        buf.push(lon_b.2);
        buf.push(alt_group.0);
        buf.push(b12);
        buf.push(b13);
        buf.push(spd_group.0);
        buf.push(b15);
        buf.push(vs_group.1);
        buf.push(trailer.0);
        buf.push(trailer.1);
        buf.push(trailer.2);
        buf.push(trailer.3);
        buf.push(tail6[0]);
        buf.push(tail6[1]);
        buf.push(tail6[2]);
        buf.push(tail6[3]);
        buf.push(tail6[4]);
        buf.push(tail6[5]);
        buf.push(trailer.4);
        buf.push(0);
        buf.push(0);
        proof {
            assert(buf@.take(28) =~= traffic_msg_spec(e.deep_view(), clock, pres_alt_valid));
        }
        buf
    }

    /// Build the traffic message for a target and frame it as an immediate
    /// payload.
    pub fn generate_traffic(e: &Target, clock: u64, pres_alt_valid: bool) -> (r: Payload)
        requires
            crate::traffic::target_wf(e.deep_view(), clock),
        ensures
            r.deep_view() == pm(
                false,
                frame_spec(traffic_msg_spec(e.deep_view(), clock, pres_alt_valid)),
            ),
    {
        let mut buf = Self::traffic_msg_vec(e, clock, pres_alt_valid);
        let framed = prepare_payload(&mut buf);
        Payload { queueable: false, payload: framed }
    }

    /// Build the ownship message and frame it as an immediate payload.
    pub fn generate_ownship(e: &Ownship) -> (r: Payload)
        ensures
            r.deep_view() == pm(false, frame_spec(ownship_msg_spec(*e))),
    {
        let lat_b = latlon_to_gdl90(e.lat);
        let lon_b = latlon_to_gdl90(e.lon);
        let mut b11: u8 = 0xFF;
        let mut b12: u8 = 0xF9;
        if let Some(pa) = e.pressure_altitude {
            let a12 = alt_to_gdl90(pa as i64);
            b11 = (a12 / 16) as u8;
            b12 = ((a12 % 16) * 16 + 9) as u8;
        }
        let b13: u8 = (e.nic % 16) * 16 + e.nacp % 16;
        let b14: u8 = ((e.gs % 4096) / 16) as u8;
        let b15: u8 = ((e.gs % 16) * 16 + 8) as u8;
        let b17: u8 = crs_e5_to_gdl90(e.true_track);

        let mut buf: Vec<u8> = Vec::new();
        buf.push(0x0A);
        buf.push(0x01);
        buf.push(0xF0);
        buf.push(0);
        buf.push(0);
        buf.push(lat_b.0);
        buf.push(lat_b.1);
        buf.push(lat_b.2);
        buf.push(lon_b.0);
        buf.push(lon_b.1);
        buf.push(lon_b.2);
        buf.push(b11);
        buf.push(b12);
        buf.push(b13);
        buf.push(b14);
        buf.push(b15);
        buf.push(0);
        buf.push(b17);
        buf.push(0x01);
        buf.push(80);
        buf.push(105);
        buf.push(116);
        buf.push(111);
        buf.push(116);
        buf.push(0);
        buf.push(0);
        buf.push(0);
        buf.push(0);
        buf.push(0);
        buf.push(0);
        proof {
            assert(buf@.take(28) =~= ownship_msg_spec(*e));
        }
        let framed = prepare_payload(&mut buf);
        Payload { queueable: false, payload: framed }
    }

    /// Build the ownship geometric-altitude message and frame it as an
    /// immediate payload.
    pub fn generate_ownship_geometric_altitude(e: &Ownship) -> (r: Payload)
        ensures
            r.deep_view() == pm(false, frame_spec(geo_alt_msg_spec(*e))),
    {
        let alt5: i64 = div_trunc(e.msl_altitude as i64, 5);
        let w16: u64 = rem_euclid(alt5, 0x10000) as u64;
        let mut buf: Vec<u8> = Vec::new();
        buf.push(0x0B);
        buf.push((w16 / 256) as u8);
        buf.push((w16 % 256) as u8);
        buf.push(0);
        buf.push(0x0A);
        buf.push(0);
        buf.push(0);
        proof {
            assert(buf@.take(5) =~= geo_alt_msg_spec(*e));
        }
        let framed = prepare_payload(&mut buf);
        Payload { queueable: false, payload: framed }
    }

    /// Build the heartbeat message for this tick and frame it as an
    /// immediate payload.
    pub fn generate_heartbeat(&self, utc_sec: i64) -> (r: Payload)
        requires
            utc_sec > i64::MIN,
        ensures
            r.deep_view() == pm(false, frame_spec(heartbeat_msg_spec(self.ownship_valid, utc_sec))),
    {
        let delta: u64 = rem_euclid(utc_sec, 86400) as u64;
        let b1: u8 = if self.ownship_valid {
            0x91
        } else {
            0x11
        };
        let mut buf: Vec<u8> = Vec::new();
        buf.push(0);
        buf.push(b1);
        buf.push(((delta / 0x10000) * 128 + 1) as u8);
        buf.push((delta % 256) as u8);
        buf.push(((delta / 256) % 256) as u8);
        buf.push(0);
        buf.push(0);
        buf.push(0);
        buf.push(0);
        proof {
            assert(buf@.take(7) =~= heartbeat_msg_spec(self.ownship_valid, utc_sec));
        }
        let framed = prepare_payload(&mut buf);
        Payload { queueable: false, payload: framed }
    }

    /// Build the device identification message and frame it as an immediate
    /// payload.
    pub fn generate_foreflight_id() -> (r: Payload)
        ensures
            r.deep_view() == pm(false, frame_spec(foreflight_id_msg_spec())),
    {
        let mut buf: Vec<u8> = Vec::new();
        buf.push(0x65);
        buf.push(0);
        buf.push(0x01);
        let mut i: usize = 0;
        while i < 8
            invariant
                i <= 8,
                buf@.len() == 3 + i,
                forall|j: int| 0 <= j < buf@.len() ==> buf@[j] == foreflight_id_msg_spec()[j],
            decreases 8 - i,
        {
            buf.push(0xFF);
            i = i + 1;
        }
        buf.push(80);
        buf.push(105);
        buf.push(116);
        buf.push(111);
        buf.push(116);
        let mut i2: usize = 0;
        while i2 < 4
            invariant
                i2 <= 4,
                buf@.len() == 16 + i2,
                forall|j: int| 0 <= j < buf@.len() ==> buf@[j] == foreflight_id_msg_spec()[j],
            decreases 4 - i2,
        {
            buf.push(0);
            i2 = i2 + 1;
        }
        buf.push(80);
        buf.push(105);
        buf.push(116);
        buf.push(111);
        buf.push(116);
        let mut i3: usize = 0;
        while i3 < 13
            invariant
                i3 <= 13,
                buf@.len() == 25 + i3,
                forall|j: int| 0 <= j < buf@.len() ==> buf@[j] == foreflight_id_msg_spec()[j],
            decreases 13 - i3,
        {
            buf.push(0);
            i3 = i3 + 1;
        }
        buf.push(0x01);
        buf.push(0);
        buf.push(0);
        proof {
            assert(buf@.take(39) =~= foreflight_id_msg_spec());
        }
        let framed = prepare_payload(&mut buf);
        Payload { queueable: false, payload: framed }
    }

    /// Build the uplink message around a 432-byte uplink payload and frame
    /// it as a queueable payload.
    pub fn generate_uplink(e: &FISBData) -> (r: Payload)
        requires
            e.payload@.len() == 432,
        ensures
            r.deep_view() == pm(true, frame_spec(uplink_msg_spec(e.payload@))),
    {
        let mut buf: Vec<u8> = Vec::new();
        buf.push(0x07);
        buf.push(0xFF);
        buf.push(0xFF);
        buf.push(0xFF);
        let mut i: usize = 0;
        while i < e.payload.len()
            invariant
                i <= e.payload@.len(),
                buf@ == uplink_msg_spec(e.payload@).take(4 + i),
                e.payload@.len() == 432,
            decreases e.payload@.len() - i,
        {
            buf.push(e.payload[i]);
            proof {
                assert(uplink_msg_spec(e.payload@).take(4 + i + 1) =~= uplink_msg_spec(
                    e.payload@,
                ).take(4 + i).push(e.payload@[i as int]));
            }
            i = i + 1;
        }
        buf.push(0);
        buf.push(0);
        proof {
            assert(buf@.take(436) =~= uplink_msg_spec(e.payload@));
        }
        let framed = prepare_payload(&mut buf);
        Payload { queueable: true, payload: framed }
    }
}

/// Folding one report through the protocol state: ownship reports drain on
/// the ownship schedule and refresh the validity latches, traffic reports
/// are framed immediately, uplink payloads become queueable payloads.
pub open spec fn gdl90_step(st: GDL90, r: ReportModel, now: u64, freq: u16) -> (GDL90, Seq<
    PayloadModel,
>) {
    match r {
        ReportModel::Ownship(o) => {
            if st.ownship_counter >= (freq / 2) as u32 {
                let st2 = GDL90 {
                    ownship_valid: o.valid,
                    heartbeat_counter: st.heartbeat_counter,
                    ownship_counter: 0,
                    pres_alt_valid: st.pres_alt_valid || o.pressure_altitude is Some,
                };
                (
                    st2,
                    seq![
                        pm(false, frame_spec(ownship_msg_spec(o))),
                        pm(false, frame_spec(geo_alt_msg_spec(o))),
                    ],
                )
            } else {
                (st, Seq::<PayloadModel>::empty())
            }
        },
        ReportModel::Traffic(t) => (
            st,
            seq![pm(false, frame_spec(traffic_msg_spec(t, now, st.pres_alt_valid)))],
        ),
        ReportModel::FISB(p) => (st, seq![pm(true, frame_spec(uplink_msg_spec(p)))]),
        ReportModel::GNSS(_) => (st, Seq::<PayloadModel>::empty()),
    }
}

/// A whole tick's reports folded through the protocol state.
pub open spec fn gdl90_fold(st: GDL90, reports: Seq<ReportModel>, now: u64, freq: u16) -> (
    GDL90,
    Seq<PayloadModel>,
)
    decreases reports.len(),
{
    if reports.len() == 0 {
        (st, Seq::<PayloadModel>::empty())
    } else {
        let (mid, out) = gdl90_fold(st, reports.drop_last(), now, freq);
        let (fin, more) = gdl90_step(mid, reports.last(), now, freq);
        (fin, out + more)
    }
}

/// What one call of `GDL90::run` does: bump both counters, fold the tick's
/// reports, then emit the heartbeat pair when the heartbeat counter lands
/// exactly on one second's worth of ticks.
pub open spec fn gdl90_run_spec(
    st: GDL90,
    reports: Seq<ReportModel>,
    utc_sec: i64,
    now: u64,
    freq: u16,
) -> (GDL90, Seq<PayloadModel>)
    recommends
        st.ownship_counter < u32::MAX,
        st.heartbeat_counter < u32::MAX,
{
    let st1 = GDL90 {
        ownship_valid: st.ownship_valid,
        heartbeat_counter: (st.heartbeat_counter + 1) as u32,
        ownship_counter: (st.ownship_counter + 1) as u32,
        pres_alt_valid: st.pres_alt_valid,
    };
    let (st2, out) = gdl90_fold(st1, reports, now, freq);
    if st2.heartbeat_counter == freq as u32 {
        (
            GDL90 {
                ownship_valid: st2.ownship_valid,
                heartbeat_counter: 0,
                ownship_counter: st2.ownship_counter,
                pres_alt_valid: st2.pres_alt_valid,
            },
            out + seq![
                pm(false, frame_spec(heartbeat_msg_spec(st2.ownship_valid, utc_sec))),
                pm(false, frame_spec(foreflight_id_msg_spec())),
            ],
        )
    } else {
        (st2, out)
    }
}

impl GDL90 {
    /// Consume a tick's reports and push the tick's wire payloads.
    pub fn run(&mut self, handle: &mut PushableHandle<Payload>, reports: &Vec<Report>)
        requires
            old(self).ownship_counter < u32::MAX,
            old(self).heartbeat_counter < u32::MAX,
            old(handle).utc_sec > i64::MIN,
            forall|i: int|
                0 <= i < reports@.len() ==> ((#[trigger] reports@[i]) matches Report::FISB(f)
                    ==> f.payload@.len() == 432),
            forall|i: int|
                0 <= i < reports@.len() ==> ((#[trigger] reports@[i]) matches Report::Traffic(t)
                    ==> crate::traffic::target_wf(t.deep_view(), old(handle).mono_ms)),
        ensures
            ({
                let (fin, out) = gdl90_run_spec(
                    *old(self),
                    dvs(reports@),
                    old(handle).utc_sec,
                    old(handle).mono_ms,
                    old(handle).freq,
                );
                *final (self) == fin && dvs(final (handle).queue@) == dvs(old(handle).queue@) + out
            }),
            final (handle).utc_sec == old(handle).utc_sec,
            final (handle).mono_ms == old(handle).mono_ms,
            final (handle).freq == old(handle).freq,
    {
        let clock = handle.get_clock();
        let freq = handle.get_frequency();
        self.ownship_counter = self.ownship_counter + 1;
        self.heartbeat_counter = self.heartbeat_counter + 1;
        let ghost st1 = *self;
        let ghost q0 = dvs(old(handle).queue@);

        let mut i: usize = 0;
        while i < reports.len()
            invariant
                i <= reports@.len(),
                gdl90_fold(st1, dvs(reports@).take(i as int), clock, freq) == (
                    *self,
                    dvs(handle.queue@).skip(q0.len() as int),
                ),
                dvs(handle.queue@).take(q0.len() as int) == q0,
                dvs(handle.queue@).len() >= q0.len(),
                q0 == dvs(old(handle).queue@),
                handle.utc_sec == old(handle).utc_sec,
                handle.mono_ms == old(handle).mono_ms,
                handle.freq == old(handle).freq,
                clock == old(handle).mono_ms,
                freq == old(handle).freq,
                forall|j: int|
                    0 <= j < reports@.len() ==> ((#[trigger] reports@[j]) matches Report::FISB(f)
                        ==> f.payload@.len() == 432),
                forall|j: int|
                    0 <= j < reports@.len() ==> ((#[trigger] reports@[j]) matches Report::Traffic(
                        t,
                    ) ==> crate::traffic::target_wf(t.deep_view(), old(handle).mono_ms)),
            decreases reports@.len() - i,
        {
            proof {
                assert(dvs(reports@).take(i + 1).drop_last() =~= dvs(reports@).take(i as int));
                assert(dvs(reports@).take(i + 1).last() == reports@[i as int].deep_view());
            }
            let ghost pre = dvs(handle.queue@);
            match &reports[i] {
                Report::Ownship(o) => {
                    if self.ownship_counter >= (freq / 2) as u32 {
                        self.ownship_counter = 0;
                        self.ownship_valid = o.valid;
                        if o.pressure_altitude.is_some() {
                            self.pres_alt_valid = true;
                        }
                        handle.emit(GDL90::generate_ownship(o));
                        handle.emit(GDL90::generate_ownship_geometric_altitude(o));
                    }
                },
                Report::Traffic(t) => {
                    handle.emit(GDL90::generate_traffic(t, clock, self.pres_alt_valid));
                },
                Report::FISB(f) => {
                    handle.emit(GDL90::generate_uplink(f));
                },
                Report::GNSS(_) => {},
            }
            proof {
                assert(dvs(handle.queue@).take(q0.len() as int) =~= pre.take(q0.len() as int));
                assert(dvs(handle.queue@).skip(q0.len() as int) =~= pre.skip(q0.len() as int)
                    + dvs(handle.queue@).skip(pre.len() as int));
                assert(dvs(handle.queue@).skip(pre.len() as int) =~= gdl90_step(
                    gdl90_fold(st1, dvs(reports@).take(i as int), clock, freq).0,
                    reports@[i as int].deep_view(),
                    clock,
                    freq,
                ).1);
            }
            i = i + 1;
        }
        proof {
            assert(dvs(reports@).take(reports@.len() as int) =~= dvs(reports@));
        }

        if self.heartbeat_counter == freq as u32 {
            self.heartbeat_counter = 0;
            let ghost pre = dvs(handle.queue@);
            let utc = handle.get_utc();
            let hb = self.generate_heartbeat(utc);
            handle.emit(hb);
            handle.emit(GDL90::generate_foreflight_id());
            proof {
                assert(dvs(handle.queue@).take(q0.len() as int) =~= pre.take(q0.len() as int));
                assert(dvs(handle.queue@).skip(q0.len() as int) =~= pre.skip(q0.len() as int)
                    + dvs(handle.queue@).skip(pre.len() as int));
            }
        }
        proof {
            let (fin, out) = gdl90_run_spec(
                *old(self),
                dvs(reports@),
                old(handle).utc_sec,
                old(handle).mono_ms,
                old(handle).freq,
            );
            assert(dvs(handle.queue@) =~= q0 + dvs(handle.queue@).skip(q0.len() as int));
            assert(dvs(handle.queue@).skip(q0.len() as int) =~= out);
        }
    }
}

/// Every frame begins and ends with exactly one flag byte, carries no flag
/// byte in its interior, and every interior escape byte is immediately
/// followed by an escaped flag or escape byte.
pub proof fn lemma_frame_clean(m: Seq<u8>)
    ensures
        ({
            let f = frame_spec(m);
            &&& f.len() >= 2
            &&& f[0] == FLAG_BYTE
            &&& f[f.len() - 1] == FLAG_BYTE
            &&& forall|i: int| 0 < i < f.len() - 1 ==> #[trigger] f[i] != FLAG_BYTE
            &&& forall|i: int|
                0 < i < f.len() - 1 && #[trigger] f[i] == ESCAPE_BYTE ==> i + 1 < f.len() - 1 && (
                f[i + 1] == 0x5Eu8 || f[i + 1] == 0x5Du8)
        }),
{
    let body = stuff_spec(m + crc_bytes(m));
    lemma_stuff_clean(m + crc_bytes(m));
    let f = frame_spec(m);
    assert forall|i: int| 0 < i < f.len() - 1 implies #[trigger] f[i] != FLAG_BYTE by {
        assert(f[i] == body[i - 1]);
    }
    assert forall|i: int|
        0 < i < f.len() - 1 && #[trigger] f[i] == ESCAPE_BYTE implies i + 1 < f.len() - 1 && (f[i
        + 1] == 0x5Eu8 || f[i + 1] == 0x5Du8) by {
        assert(f[i] == body[i - 1]);
        assert(body[i] == f[i + 1]);
    }
}

} // verus!
