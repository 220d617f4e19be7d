//! UAT downlink decoding against captured payloads, and the frame queue.

use pitot::traffic::{AddressType, AltitudeType, HeadingType, SpeedType, TrafficData, TrafficSource};
use pitot::uat::{parse_adsb_downlink, Dump978, Frame, FrameType};

#[test]
fn test_parse_adsb_downlink() {
    let payload = vec![
        11, 43, 3, 200, 53, 69, 117, 82, 61, 248, 8, 22, 16, 238, 31, 192, 17, 5, 196, 230, 196,
        230, 196, 10, 218, 130, 3, 0, 0, 0, 0, 0, 0, 0,
    ];
    let exp = TrafficData {
        addr: (0x2B03C8, AddressType::TISBOther),
        altitude: Some((2200, AltitudeType::Baro)),
        gnss_delta: None,
        heading: Some((227, HeadingType::True)),
        speed: Some((85, SpeedType::GS)),
        vs: Some(0),
        squawk: None,
        callsign: None,
        category: Some(0),
        lat_lon: Some((1745594, -5693700)),
        nic: Some(6),
        nacp: Some(8),
        on_ground: Some(false),
        source: TrafficSource::UAT,
    };
    assert_eq!(parse_adsb_downlink(&payload), exp);

    let payload = vec![
        8, 166, 98, 159, 46, 182, 45, 99, 174, 214, 28, 42, 0, 30, 44, 128, 24, 9, 229, 187, 168,
        230, 196, 6, 120, 160, 130, 0, 0, 28, 96, 0, 0, 0,
    ];
    let exp = TrafficData {
        addr: (0xA6629F, AddressType::ADSBICAO),
        altitude: Some((10225, AltitudeType::Baro)),
        gnss_delta: None,
        heading: Some((274, HeadingType::True)),
        speed: Some((88, SpeedType::GS)),
        vs: Some(0),
        squawk: None,
        callsign: Some(String::from("NDU10")),
        category: Some(1),
        lat_lon: Some((1530646, -5122197)),
        nic: Some(10),
        nacp: Some(10),
        on_ground: Some(false),
        source: TrafficSource::UAT,
    };
    assert_eq!(parse_adsb_downlink(&payload), exp);

    let payload = vec![
        8, 165, 16, 171, 63, 198, 127, 123, 20, 102, 6, 169, 16, 168, 61, 160, 40, 6, 229, 19, 93,
        237, 45, 11, 230, 164, 192, 160, 0, 6, 224, 0, 0, 0,
    ];
    let exp = TrafficData {
        addr: (0xA510AB, AddressType::ADSBICAO),
        altitude: Some((1625, AltitudeType::Baro)),
        gnss_delta: None,
        heading: Some((109, HeadingType::True)),
        speed: Some((129, SpeedType::GS)),
        vs: Some(-64),
        squawk: Some(4533),
        callsign: None,
        category: Some(1),
        lat_lon: Some((2089791, -4355533)),
        nic: Some(9),
        nacp: Some(10),
        on_ground: Some(false),
        source: TrafficSource::UAT,
    };
    assert_eq!(parse_adsb_downlink(&payload), exp);

    let payload = vec![
        10, 163, 166, 85, 63, 125, 231, 123, 194, 150, 7, 32, 1, 170, 10, 64, 223, 9, 219, 19,
        125, 68, 68, 8, 200, 145, 194, 160, 0, 7, 144, 0, 0, 0,
    ];
    let exp = TrafficData {
        addr: (0xA3A655, AddressType::TISBICAO),
        altitude: Some((1825, AltitudeType::Baro)),
        gnss_delta: None,
        heading: Some((350, HeadingType::True)),
        speed: Some((107, SpeedType::GS)),
        vs: Some(768),
        squawk: None,
        callsign: Some(String::from("N334TA")),
        category: Some(1),
        lat_lon: Some((2080499, -4333237)),
        nic: Some(0),
        nacp: Some(9),
        on_ground: Some(false),
        source: TrafficSource::UAT,
    };
    assert_eq!(parse_adsb_downlink(&payload), exp);
}

#[test]
fn test_frame_queue() {
    let mut d = Dump978::new();
    d.push_frame(FrameType::ADSBShort, vec![1, 2, 3], 0);
    d.push_frame(FrameType::GroundUplink, vec![9; 432], 2);
    let frames = d.parsed_as_mut_ref();
    assert_eq!(frames.len(), 2);
    assert_eq!(
        frames[0],
        Frame { frame_type: FrameType::ADSBShort, payload: vec![1, 2, 3], rs_error: 0 }
    );
    assert_eq!(frames[1].frame_type, FrameType::GroundUplink);
    assert_eq!(frames[1].payload.len(), 432);
    // the queue is drained by taking it
    let empty = d.parsed_as_mut_ref();
    assert_eq!(empty.len(), 0);
}

#[test]
fn test_ground_state_vector() {
    // a surface payload: state 2, track field 128 (90 degrees true)
    let mut payload = vec![0u8; 18];
    payload[0] = 0;
    payload[1] = 0xA1;
    payload[2] = 0xB2;
    payload[3] = 0xC3;
    payload[12] = 0x80;
    payload[13] = 8;
    payload[14] = 64;
    let decoded = parse_adsb_downlink(&payload);
    assert_eq!(decoded.on_ground, Some(true));
    assert_eq!(decoded.heading, Some((90, HeadingType::True)));
    // raw ground speed 2 encodes 1 kt
    assert_eq!(decoded.speed, Some((1, SpeedType::GS)));
    assert_eq!(decoded.vs, None);

    // the all-zero speed subfield is the not-available encoding, even under
    // a set supersonic bit
    payload[12] = 0x90;
    payload[13] = 0;
    let decoded = parse_adsb_downlink(&payload);
    assert_eq!(decoded.speed, None);
    assert_eq!(decoded.on_ground, Some(true));
}
