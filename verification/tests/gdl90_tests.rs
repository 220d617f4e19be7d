//! Field encoders, framing and the traffic message, checked byte for byte.

use pitot::gdl90::{alt_to_gdl90, crs_to_gdl90, decode_frame, prepare_payload, GDL90};
use pitot::handle::{BasicHandle, PushableHandle};
use pitot::payload::Payload;
use pitot::report::Report;
use pitot::traffic::{AddressType, AltitudeType, HeadingType, Target, TrafficSource};

#[test]
fn test_alt_to_gdl90() {
    assert_eq!(alt_to_gdl90(-2000), 0xFFF);
    assert_eq!(alt_to_gdl90(-1001), 0xFFF);
    assert_eq!(alt_to_gdl90(-1000), 0x000);
    assert_eq!(alt_to_gdl90(-975), 0x001);
    assert_eq!(alt_to_gdl90(0), 0x028);
    assert_eq!(alt_to_gdl90(1000), 0x050);
    assert_eq!(alt_to_gdl90(1001), 0x050);
    assert_eq!(alt_to_gdl90(1025), 0x051);
    assert_eq!(alt_to_gdl90(101350), 0xFFE);
    assert_eq!(alt_to_gdl90(101351), 0xFFF);
}

#[test]
fn test_crs_to_gdl90() {
    assert_eq!(crs_to_gdl90(0), 0x00);
    assert_eq!(crs_to_gdl90(180), 0x80);
    assert_eq!(crs_to_gdl90(266), 0xBD);
    assert_eq!(crs_to_gdl90(359), 0xFF);
    assert_eq!(crs_to_gdl90(360), 0x00);
}

/// Degrees to the semicircle units the library carries, as the sensor
/// conversion computes them.
fn deg_units(deg: f32) -> i32 {
    (deg / (180.0_f32 / 8388608.0_f32)).round() as i32
}

fn sample_target(clock: u64) -> Target {
    Target {
        addr: (0xA1B2C3, AddressType::ADSBICAO),
        altitude: Some((12375, AltitudeType::Baro, clock)),
        gnss_delta: Some(1000),
        heading: Some((123, HeadingType::True, clock)),
        speed: Some((66, pitot::traffic::SpeedType::GS, clock)),
        vs: Some((-1000, clock)),
        squawk: Some(123),
        callsign: Some(String::from("TEST123")),
        category: Some(3),
        lat_lon: Some(((deg_units(37.750374), deg_units(-122.52676)), clock)),
        nic: Some(7),
        nacp: Some(9),
        on_ground: Some(false),
        last_seen: clock,
        source: TrafficSource::ES,
    }
}

#[test]
fn test_generate_traffic() {
    let clock: u64 = 5000;
    let mut trfc = sample_target(clock);

    let payload = GDL90::generate_traffic(&trfc, clock, false);
    let expected = [
        0x7E, 0x14, 0x00, 0xA1, 0xB2, 0xC3, 0x1A, 0xD8, 0x3F, 0xA8, 0xDE, 0xAF, 0x23, 0xF9, 0x79,
        0x04, 0x2F, 0xF0, 0x57, 0x03, b'e', b'a', b'T', b'E', b'S', b'T', b'1', b'2', 0x00, 0x4D,
        0xDE, 0x7E,
    ];
    assert_eq!(payload.payload, expected);
    assert!(!payload.queueable);

    let payload = GDL90::generate_traffic(&trfc, clock, true);
    let expected = [
        0x7E, 0x14, 0x00, 0xA1, 0xB2, 0xC3, 0x1A, 0xD8, 0x3F, 0xA8, 0xDE, 0xAF, 0x21, 0x79, 0x79,
        0x04, 0x2F, 0xF0, 0x57, 0x03, b'e', b'a', b'T', b'E', b'S', b'T', b'1', b'2', 0x00, 0xEA,
        0xC4, 0x7E,
    ];
    assert_eq!(payload.payload, expected);

    trfc.callsign = None;
    let payload = GDL90::generate_traffic(&trfc, clock, false);
    let expected = [
        0x7E, 0x14, 0x00, 0xA1, 0xB2, 0xC3, 0x1A, 0xD8, 0x3F, 0xA8, 0xDE, 0xAF, 0x23, 0xF9, 0x79,
        0x04, 0x2F, 0xF0, 0x57, 0x03, b'e', b'a', b'0', b'1', b'2', b'3', 0x00, 0x00, 0x00, 0x87,
        0xEC, 0x7E,
    ];
    assert_eq!(payload.payload, expected);

    trfc.altitude = Some((12375, AltitudeType::GNSS, clock));
    let payload = GDL90::generate_traffic(&trfc, clock, true);
    let expected = [
        0x7E, 0x14, 0x00, 0xA1, 0xB2, 0xC3, 0x1A, 0xD8, 0x3F, 0xA8, 0xDE, 0xAF, 0x1E, 0xF9, 0x79,
        0x04, 0x2F, 0xF0, 0x57, 0x03, b'e', b'a', b'0', b'1', b'2', b'3', 0x00, 0x00, 0x00, 0x12,
        0x2D, 0x7E,
    ];
    assert_eq!(payload.payload, expected);
}

#[test]
fn test_stale_fields_are_invalid_sentinels() {
    // a target whose stamps are all older than six whole seconds encodes
    // every volatile field as its invalid sentinel
    let stamp: u64 = 1000;
    let clock: u64 = stamp + 7000;
    let trfc = sample_target(stamp);
    let payload = GDL90::generate_traffic(&trfc, clock, false);
    let msg = decode_frame(&payload.payload).unwrap();
    // stale altitude: the 0xFFF sentinel, not a valid-looking zero
    assert_eq!(msg[11], 0xFF);
    assert_eq!(msg[12] & 0xF0, 0xF0);
    // stale position: zeroed latitude, longitude and integrity nibble
    assert_eq!(&msg[5..11], &[0, 0, 0, 0, 0, 0]);
    assert_eq!(msg[13] & 0xF0, 0);
    // stale speed and vertical speed: sentinel and no-rate flag
    assert_eq!(msg[14], 0xFF);
    assert_eq!(msg[15], 0xF8);
    assert_eq!(msg[16], 0x00);
    // no heading-valid bit, airborne still assumed
    assert_eq!(msg[12] & 0x03, 0);
    assert_eq!(msg[12] & 0x08, 0x08);
}

#[test]
fn test_crc_of_single_zero_byte() {
    // the CRC of the one-byte message [0x00] is the table's first entry
    let mut buf = vec![0x00, 0, 0];
    let frame = prepare_payload(&mut buf);
    // flag, message byte, two CRC bytes (0x0000), flag
    assert_eq!(frame, vec![0x7E, 0x00, 0x00, 0x00, 0x7E]);
}

#[test]
fn test_frame_round_trip() {
    // a message holding both special bytes survives framing and decoding
    let msg = vec![0x14, 0x7E, 0x7D, 0xFF, 0x00, 0x7E];
    let mut buf = msg.clone();
    buf.push(0);
    buf.push(0);
    let frame = prepare_payload(&mut buf);
    // exactly one flag byte at each end, none inside
    assert_eq!(frame[0], 0x7E);
    assert_eq!(frame[frame.len() - 1], 0x7E);
    for i in 1..frame.len() - 1 {
        assert!(frame[i] != 0x7E);
        if frame[i] == 0x7D {
            assert!(frame[i + 1] == 0x5E || frame[i + 1] == 0x5D);
        }
    }
    assert_eq!(decode_frame(&frame), Some(msg));
}

#[test]
fn test_decode_frame_rejects_corruption() {
    let mut buf = vec![0x0A, 0x01, 0x02, 0, 0];
    let mut frame = prepare_payload(&mut buf);
    // flip a message bit: the CRC check must fail
    frame[1] ^= 0x01;
    assert_eq!(decode_frame(&frame), None);
    // strip the trailing flag: the frame shape check must fail
    let mut buf2 = vec![0x0A, 0x01, 0x02, 0, 0];
    let mut frame2 = prepare_payload(&mut buf2);
    frame2.pop();
    assert_eq!(decode_frame(&frame2), None);
}

#[test]
fn test_heartbeat_and_uplink() {
    let handle = BasicHandle::new(3723, 0, 1);
    let mut ph: PushableHandle<Payload> = PushableHandle::new(&handle);
    let mut g = GDL90::new();
    let reports: Vec<Report> = Vec::new();
    g.run(&mut ph, &reports);
    // at 1 Hz the first tick emits the heartbeat pair
    assert_eq!(ph.queue.len(), 2);
    let hb = decode_frame(&ph.queue[0].payload).unwrap();
    // 3723 s past midnight: status, timestamp low byte 139, high byte 14
    assert_eq!(hb, vec![0x00, 0x11, 0x01, 139, 14, 0, 0]);
    let ff = decode_frame(&ph.queue[1].payload).unwrap();
    assert_eq!(ff.len(), 39);
    assert_eq!(ff[0], 0x65);
    assert_eq!(ff[38], 0x01);

    let uplink = GDL90::generate_uplink(&pitot::fisb::FISBData { payload: vec![0xAB; 432] });
    assert!(uplink.queueable);
    let msg = decode_frame(&uplink.payload).unwrap();
    assert_eq!(msg.len(), 436);
    assert_eq!(&msg[0..4], &[0x07, 0xFF, 0xFF, 0xFF]);
    assert_eq!(msg[4], 0xAB);
}
