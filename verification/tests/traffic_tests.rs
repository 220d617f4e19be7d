//! The tail-number derivation and the traffic situation: merging, the
//! ADS-B lockout, aging and emission.

use pitot::handle::{BasicHandle, PushableHandle};
use pitot::report::Report;
use pitot::sensor::SensorData;
use pitot::traffic::{
    category_from_code, icao_to_tail, squawk_from_bcd, AddressType, Traffic, TrafficData,
    TrafficSource,
};

#[test]
fn test_icao_to_tail() {
    assert_eq!(icao_to_tail(0xAA5694), Some(String::from("N76508")));
    assert_eq!(icao_to_tail(0xA29CBF), Some(String::from("N268AK")));
    assert_eq!(icao_to_tail(0xA66A54), Some(String::from("N512R")));
    assert_eq!(icao_to_tail(0xA00001), Some(String::from("N1")));
    assert_eq!(icao_to_tail(0xA029D9), Some(String::from("N11")));
    assert_eq!(icao_to_tail(0xA18FA9), Some(String::from("N20")));
    assert_eq!(icao_to_tail(0x780A2C), None);
}

#[test]
fn test_icao_to_tail_blocks() {
    // total on the civil block, the military marker above it, absent outside
    assert_eq!(icao_to_tail(0xADF7C7), Some(String::from("N99999")));
    assert_eq!(icao_to_tail(0xADF7C8), Some(String::from("US-MIL")));
    assert_eq!(icao_to_tail(0xAFFFFF), Some(String::from("US-MIL")));
    assert_eq!(icao_to_tail(0xA00000), None);
    assert_eq!(icao_to_tail(0xB00000), None);
    assert_eq!(icao_to_tail(0x000000), None);
}

fn report(icao: u32, qual: AddressType, src: TrafficSource) -> TrafficData {
    TrafficData {
        addr: (icao, qual),
        altitude: Some((5000, pitot::traffic::AltitudeType::Baro)),
        gnss_delta: None,
        heading: None,
        speed: None,
        vs: None,
        squawk: None,
        callsign: None,
        category: None,
        lat_lon: None,
        nic: None,
        nacp: None,
        on_ground: None,
        source: src,
    }
}

fn run_traffic(t: &mut Traffic, mono_ms: u64, items: Vec<SensorData>) -> Vec<Report> {
    let handle = BasicHandle::new(0, mono_ms, 10);
    let mut rh: PushableHandle<Report> = PushableHandle::new(&handle);
    t.run(&mut rh, &items);
    rh.queue
}

#[test]
fn test_adsb_lockout() {
    let mut t = Traffic::new();

    // a direct report at t = 0
    run_traffic(
        &mut t,
        0,
        vec![SensorData::Traffic(report(0xA1B2C3, AddressType::ADSBICAO, TrafficSource::ES))],
    );
    assert_eq!(t.situation.len(), 1);
    assert_eq!(t.situation[0].addr.1, AddressType::ADSBICAO);
    assert_eq!(t.situation[0].source, TrafficSource::ES);

    // a rebroadcast one second later is locked out
    run_traffic(
        &mut t,
        1000,
        vec![SensorData::Traffic(report(0xA1B2C3, AddressType::ADSRICAO, TrafficSource::UAT))],
    );
    assert_eq!(t.situation[0].addr.1, AddressType::ADSBICAO);
    assert_eq!(t.situation[0].source, TrafficSource::ES);
    assert_eq!(t.situation[0].last_seen, 0);

    // after two seconds the rebroadcast is accepted
    run_traffic(
        &mut t,
        2000,
        vec![SensorData::Traffic(report(0xA1B2C3, AddressType::ADSRICAO, TrafficSource::UAT))],
    );
    assert_eq!(t.situation[0].addr.1, AddressType::ADSRICAO);
    assert_eq!(t.situation[0].source, TrafficSource::UAT);
    assert_eq!(t.situation[0].last_seen, 2000);
}

#[test]
fn test_merge_retains_absent_fields() {
    let mut t = Traffic::new();
    let mut first = report(0xA00001, AddressType::ADSBICAO, TrafficSource::ES);
    first.squawk = Some(1200);
    run_traffic(&mut t, 0, vec![SensorData::Traffic(first)]);
    // derived registration fills the callsign
    assert_eq!(t.situation[0].callsign, Some(String::from("N1")));
    assert_eq!(t.situation[0].squawk, Some(1200));

    // an update without those fields keeps them
    run_traffic(
        &mut t,
        3000,
        vec![SensorData::Traffic(report(0xA00001, AddressType::ADSBICAO, TrafficSource::ES))],
    );
    assert_eq!(t.situation[0].squawk, Some(1200));
    assert_eq!(t.situation[0].callsign, Some(String::from("N1")));
    assert_eq!(t.situation[0].last_seen, 3000);
    assert_eq!(t.situation[0].altitude, Some((5000, pitot::traffic::AltitudeType::Baro, 3000)));
}

#[test]
fn test_last_seen_never_decreases() {
    let mut t = Traffic::new();
    let mut prev: u64 = 0;
    for tick in 0..5u64 {
        let now = tick * 700;
        run_traffic(
            &mut t,
            now,
            vec![SensorData::Traffic(report(0xAA0001, AddressType::ADSBICAO, TrafficSource::ES))],
        );
        assert!(t.situation[0].last_seen >= prev);
        prev = t.situation[0].last_seen;
    }
}

#[test]
fn test_cleanup_drops_stale_target() {
    let mut t = Traffic::new();
    run_traffic(
        &mut t,
        0,
        vec![SensorData::Traffic(report(0xA1B2C3, AddressType::ADSBICAO, TrafficSource::ES))],
    );
    assert_eq!(t.situation.len(), 1);

    // at 10 Hz the cleanup runs every 100 ticks; after 99 idle ticks the
    // hundredth lands past the sixty-second window and culls the target
    for _ in 0..98 {
        run_traffic(&mut t, 30_000, Vec::new());
    }
    assert_eq!(t.situation.len(), 1);
    run_traffic(&mut t, 60_000, Vec::new());
    assert_eq!(t.situation.len(), 0);
}

#[test]
fn test_fresh_target_emitted() {
    let mut t = Traffic::new();
    // at 10 Hz the report task runs every 10 ticks
    let mut emitted: Vec<Report> = Vec::new();
    for tick in 0..10u64 {
        let items = if tick == 0 {
            vec![SensorData::Traffic(report(0xA1B2C3, AddressType::ADSBICAO, TrafficSource::ES))]
        } else {
            Vec::new()
        };
        let mut out = run_traffic(&mut t, tick, items);
        emitted.append(&mut out);
    }
    assert_eq!(emitted.len(), 1);
    match &emitted[0] {
        Report::Traffic(target) => {
            assert_eq!(target.addr.0, 0xA1B2C3);
        }
        other => panic!("unexpected report {:?}", other),
    }

    // once every volatile stamp is older than the freshness window,
    // nothing is emitted
    let mut quiet: Vec<Report> = Vec::new();
    for tick in 0..10u64 {
        let mut out = run_traffic(&mut t, 8000 + tick, Vec::new());
        quiet.append(&mut out);
    }
    assert_eq!(quiet.len(), 0);
}

#[test]
fn test_mode_s_decodes() {
    // binary-coded decimal squawks spell their digits out
    assert_eq!(squawk_from_bcd(0x1200), 1200);
    assert_eq!(squawk_from_bcd(0x7700), 7700);
    assert_eq!(squawk_from_bcd(0x0042), 42);
    // eight emitter categories per type code, first type at 0xA0
    assert_eq!(category_from_code(0xA0), 0);
    assert_eq!(category_from_code(0xA3), 3);
    assert_eq!(category_from_code(0xB1), 9);
    assert_eq!(category_from_code(0xD7), 31);
}
