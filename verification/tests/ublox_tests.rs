//! The receiver wire protocol: framing, parsing, resynchronization, the
//! acknowledgement protocol and the payload decoders.

use pitot::sensor::{Constellation, Fix, FixQuality, GNSSData, SVStatus, UtcTime};
use pitot::ublox::{
    ack_outcome, parse_ubx_message, parse_ubx_nav_pvt, parse_ubx_nav_sat, AckOutcome, UBXPacket,
    UbxBuffer, UbxNext, UbxParse,
};

#[test]
fn test_make_ubx_message() {
    assert_eq!(
        UBXPacket::new(0x0A, 0x04, vec![]).to_wire(),
        [0xB5, 0x62, 0x0A, 0x04, 0x00, 0x00, 0x0E, 0x34]
    );
    assert_eq!(
        UBXPacket::new(
            0x06,
            0x24,
            vec![
                0xFF, 0xFF, 0x06, 0x03, 0x00, 0x00, 0x00, 0x00, 0x10, 0x27, 0x00, 0x00, 0x05, 0x00,
                0xFA, 0x00, 0xFA, 0x00, 0x64, 0x00, 0x2C, 0x01, 0x00, 0x3C, 0x00, 0x00, 0x00, 0x00,
                0xC8, 0x00, 0x00, 0x00, 0x00, 0x00, 0x00, 0x00,
            ]
        )
        .to_wire(),
        vec![
            0xB5, 0x62, 0x06, 0x24, 0x24, 0x00, 0xFF, 0xFF, 0x06, 0x03, 0x00, 0x00, 0x00, 0x00,
            0x10, 0x27, 0x00, 0x00, 0x05, 0x00, 0xFA, 0x00, 0xFA, 0x00, 0x64, 0x00, 0x2C, 0x01,
            0x00, 0x3C, 0x00, 0x00, 0x00, 0x00, 0xC8, 0x00, 0x00, 0x00, 0x00, 0x00, 0x00, 0x00,
            0x1A, 0x28,
        ]
    );
}

#[test]
fn test_ubx_parser() {
    let msg = vec![0xB5, 0x62, 0x0A, 0x04, 0x00, 0x00, 0x0E, 0x34, 0x00];
    match parse_ubx_message(&msg) {
        UbxParse::Done { consumed, packet } => {
            assert_eq!(consumed, 8);
            assert_eq!(packet, UBXPacket { class: 0x0A, id: 0x04, payload: vec![] });
        }
        other => panic!("unexpected {:?}", kind_of(&other)),
    }

    // the header is still incomplete
    let partial = msg[..7].to_vec();
    assert!(matches!(parse_ubx_message(&partial), UbxParse::Incomplete));

    // a found sync pair whose announced payload has not arrived yet
    let pending = vec![0x00, 0x01, 0xB5, 0x62, 0x0A, 0x04, 0x0F, 0x00, 0x00];
    assert!(matches!(parse_ubx_message(&pending), UbxParse::Incomplete));

    // no sync pair at all
    let noise = vec![0x00, 0x00];
    assert!(matches!(parse_ubx_message(&noise), UbxParse::Error));

    // a bad checksum
    let broken = vec![0xB5, 0x62, 0x0A, 0x04, 0x00, 0x00, 0x0E, 0x35];
    assert!(matches!(parse_ubx_message(&broken), UbxParse::Error));

    // two packets back to back: the first is taken, the second remains
    let double = vec![
        0xB5, 0x62, 0x0A, 0x04, 0x00, 0x00, 0x0E, 0x34, 0xB5, 0x62, 0x0A, 0x04, 0x00, 0x00, 0x0E,
        0x34,
    ];
    match parse_ubx_message(&double) {
        UbxParse::Done { consumed, packet } => {
            assert_eq!(consumed, 8);
            assert_eq!(packet, UBXPacket { class: 0x0A, id: 0x04, payload: vec![] });
        }
        other => panic!("unexpected {:?}", kind_of(&other)),
    }

    // leading noise before the sync pair is consumed with the packet
    let prefixed = vec![0x00, 0x01, 0x02, 0xB5, 0x62, 0x0A, 0x04, 0x00, 0x00, 0x0E, 0x34];
    match parse_ubx_message(&prefixed) {
        UbxParse::Done { consumed, packet } => {
            assert_eq!(consumed, 11);
            assert_eq!(packet, UBXPacket { class: 0x0A, id: 0x04, payload: vec![] });
        }
        other => panic!("unexpected {:?}", kind_of(&other)),
    }

    // a position-velocity-time payload with a valid time but no fix
    let payload = vec![
        192, 158, 224, 6, 225, 7, 5, 22, 8, 2, 46, 55, 56, 17, 0, 0, 32, 240, 5, 0, 0, 0, 6, 0,
        44, 28, 253, 182, 179, 195, 113, 22, 112, 233, 255, 255, 170, 94, 0, 0, 22, 196, 13, 0,
        232, 187, 9, 0, 0, 0, 0, 0, 0, 0, 0, 0, 0, 0, 0, 0, 0, 0, 0, 0, 0, 0, 0, 0, 64, 66, 15,
        0, 128, 168, 18, 1, 15, 39, 0, 0, 248, 74, 35, 0, 0, 0, 0, 0, 0, 0, 0, 0,
    ];
    assert_eq!(
        parse_ubx_nav_pvt(&payload),
        Some(GNSSData::TimeFix {
            time: Some(UtcTime { year: 2017, month: 5, day: 22, hour: 8, min: 2, sec: 46 }),
            fix: None,
        })
    );

    // the same shape of payload with a three-dimensional fix
    let payload = vec![
        148, 99, 86, 7, 225, 7, 5, 22, 10, 11, 24, 55, 60, 3, 0, 0, 88, 166, 244, 5, 3, 0, 6, 6,
        28, 27, 253, 182, 131, 185, 113, 22, 117, 202, 255, 255, 175, 63, 0, 0, 45, 71, 1, 0, 91,
        36, 7, 0, 150, 253, 255, 255, 47, 1, 0, 0, 117, 0, 0, 0, 176, 2, 0, 0, 0, 0, 0, 0, 79, 15,
        0, 0, 128, 168, 18, 1, 105, 3, 0, 0, 248, 74, 35, 0, 0, 0, 0, 0, 0, 0, 246, 255,
    ];
    assert_eq!(
        parse_ubx_nav_pvt(&payload),
        Some(GNSSData::TimeFix {
            time: Some(UtcTime { year: 2017, month: 5, day: 22, hour: 10, min: 11, sec: 24 }),
            fix: Some(Fix {
                lat_lon: ((376551811, -1224926436), Some(83757)),
                height_msl: (16303, Some(468059)),
                height_ellipsoid: (-13707, Some(468059)),
                gs: (688, Some(3919)),
                true_course: (0, Some(18000000)),
                quality: FixQuality::ThreeDim,
                num_sv: 6,
                mag_dec: None,
            }),
        })
    );

    // the same fix with the differential flag on and the declination valid
    let mut sbas = payload.clone();
    sbas[11] = 63;
    sbas[21] = 2;
    assert_eq!(
        parse_ubx_nav_pvt(&sbas),
        Some(GNSSData::TimeFix {
            time: Some(UtcTime { year: 2017, month: 5, day: 22, hour: 10, min: 11, sec: 24 }),
            fix: Some(Fix {
                lat_lon: ((376551811, -1224926436), Some(83757)),
                height_msl: (16303, Some(468059)),
                height_ellipsoid: (-13707, Some(468059)),
                gs: (688, Some(3919)),
                true_course: (0, Some(18000000)),
                quality: FixQuality::SBAS,
                num_sv: 6,
                mag_dec: Some((0, Some(65526))),
            }),
        })
    );

    // a satellite-status payload with three vehicles
    let payload = vec![
        36, 209, 62, 8, 1, 3, 0, 0, 0, 2, 0, 0, 70, 1, 0, 0, 17, 18, 0, 0, 6, 14, 0, 8, 219, 0,
        0, 0, 17, 18, 0, 0, 6, 88, 12, 33, 20, 0, 0, 0, 44, 0, 1, 0,
    ];
    let expected = vec![
        SVStatus {
            system: Constellation::GPS,
            sv_id: 2,
            signal: Some(0),
            elevation: Some(0),
            azimuth: Some(326),
            healthy: Some(true),
            acquired: false,
            in_solution: false,
            sbas_in_use: Some(false),
        },
        SVStatus {
            system: Constellation::GLONASS,
            sv_id: 14,
            signal: Some(0),
            elevation: Some(8),
            azimuth: Some(219),
            healthy: Some(true),
            acquired: false,
            in_solution: false,
            sbas_in_use: Some(false),
        },
        SVStatus {
            system: Constellation::GLONASS,
            sv_id: 88,
            signal: Some(12),
            elevation: Some(33),
            azimuth: Some(20),
            healthy: Some(true),
            acquired: true,
            in_solution: true,
            sbas_in_use: Some(true),
        },
    ];
    match parse_ubx_nav_sat(&payload) {
        Some(GNSSData::SatelliteInfo(v)) => assert_eq!(v, expected),
        other => panic!("unexpected {:?}", other.is_some()),
    }
}

fn kind_of(p: &UbxParse) -> &'static str {
    match p {
        UbxParse::Done { .. } => "done",
        UbxParse::Incomplete => "incomplete",
        UbxParse::Error => "error",
    }
}

#[test]
fn test_ubx_buffer_resync() {
    let mut b = UbxBuffer::new(64);
    // feed noise plus a packet in two pieces
    let part1 = vec![0x77, 0xB5, 0x62, 0x0A, 0x04];
    let part2 = vec![0x00, 0x00, 0x0E, 0x34, 0xB5];
    assert_eq!(b.feed(&part1), 5);
    assert!(matches!(b.next(), UbxNext::NeedMore));
    assert_eq!(b.feed(&part2), 5);
    match b.next() {
        UbxNext::Packet(p) => {
            assert_eq!(p, UBXPacket { class: 0x0A, id: 0x04, payload: vec![] });
        }
        _ => panic!("expected a packet"),
    }
    // the trailing half sync byte has no pair: the window is discarded
    assert!(matches!(b.next(), UbxNext::Discarded));
}

#[test]
fn test_ack_outcome() {
    let ack = UBXPacket { class: 5, id: 1, payload: vec![0x06, 0x24] };
    let nak = UBXPacket { class: 5, id: 0, payload: vec![0x06, 0x24] };
    let other = UBXPacket { class: 1, id: 7, payload: vec![] };
    let mismatched = UBXPacket { class: 5, id: 1, payload: vec![0x06, 0x08] };
    assert!(matches!(ack_outcome(0x06, 0x24, &ack), AckOutcome::Acked));
    assert!(matches!(ack_outcome(0x06, 0x24, &nak), AckOutcome::Nak));
    assert!(matches!(ack_outcome(0x06, 0x24, &other), AckOutcome::Ignore));
    assert!(matches!(ack_outcome(0x06, 0x24, &mismatched), AckOutcome::Ignore));
}

#[test]
fn test_utc_timestamp() {
    let t = UtcTime { year: 2017, month: 5, day: 22, hour: 8, min: 2, sec: 46 };
    assert_eq!(t.timestamp(), 1495440166);
    let epoch = UtcTime { year: 1970, month: 1, day: 1, hour: 0, min: 0, sec: 0 };
    assert_eq!(epoch.timestamp(), 0);
    let y2k = UtcTime { year: 2000, month: 3, day: 1, hour: 0, min: 0, sec: 0 };
    assert_eq!(y2k.timestamp(), 951868800);
}
