//! The tick loop end to end, the ownship accumulator, the clock decision,
//! the transport pacing and the client liveness machine.

use pitot::gdl90::decode_frame;
use pitot::handle::{BasicHandle, PushableHandle};
use pitot::ownship::Ownship;
use pitot::payload::Payload;
use pitot::pitot::Pitot;
use pitot::report::Report;
use pitot::sensor::{FakeGNSSProvider, Fix, FixQuality, GNSSData, SensorData, UtcTime};
use pitot::udp::{is_echo_reply, parse_lease_file, ping_packet, ClientState, UDP};

#[test]
fn test_fake_gnss_provider() {
    let mut p = FakeGNSSProvider::new().unwrap();
    let b = BasicHandle::new(0, 0, 10);
    let mut h: PushableHandle<SensorData> = PushableHandle::new(&b);

    for i in 0..2 {
        p.run(&mut h);
        assert_eq!(
            h.queue[i],
            SensorData::GNSS(GNSSData::TimeFix {
                time: Some(UtcTime { year: 2014, month: 7, day: 8, hour: 9, min: 10, sec: 11 }),
                fix: Some(Fix {
                    lat_lon: ((123450000, 123450000), Some(1000)),
                    height_msl: (1000, Some(500)),
                    height_ellipsoid: (900, Some(500)),
                    gs: (10000, Some(100)),
                    true_course: (12300000, Some(200000)),
                    quality: FixQuality::ThreeDim,
                    num_sv: 4,
                    mag_dec: Some((1000, Some(400))),
                }),
            })
        );
    }
}

fn fix_with_accuracy(acc_mm: Option<u32>) -> SensorData {
    SensorData::GNSS(GNSSData::TimeFix {
        time: None,
        fix: Some(Fix {
            lat_lon: ((377503740, -1225267600), acc_mm),
            height_msl: (100000, Some(500)),
            height_ellipsoid: (90000, Some(500)),
            gs: (51444, Some(100)),
            true_course: (12300000, Some(200000)),
            quality: FixQuality::ThreeDim,
            num_sv: 9,
            mag_dec: None,
        }),
    })
}

#[test]
fn test_ownship_accuracy_categories() {
    // the stepwise table over accuracy in meters: 3, 10, 30, 92.6, 185.2, 555.6
    let cases: Vec<(Option<u32>, u8, u8)> = vec![
        (Some(2999), 9, 11),
        (Some(3000), 9, 10),
        (Some(9999), 9, 10),
        (Some(10000), 9, 9),
        (Some(29999), 9, 9),
        (Some(30000), 9, 8),
        (Some(92599), 9, 8),
        (Some(92600), 9, 7),
        (Some(185199), 9, 7),
        (Some(185200), 9, 6),
        (Some(555599), 9, 6),
        (Some(555600), 9, 0),
        (None, 0, 0),
    ];
    for (acc, nic, nacp) in cases {
        let mut o = Ownship::new();
        assert!(!o.valid);
        let b = BasicHandle::new(0, 0, 10);
        let mut h: PushableHandle<Report> = PushableHandle::new(&b);
        o.run(&mut h, &vec![fix_with_accuracy(acc)]);
        assert_eq!((o.nic, o.nacp), (nic, nacp));
        assert!(o.valid);
        assert_eq!(h.queue.len(), 1);
    }
}

#[test]
fn test_ownship_units_and_vs() {
    let mut o = Ownship::new();
    let b = BasicHandle::new(0, 0, 10);
    let mut h: PushableHandle<Report> = PushableHandle::new(&b);
    o.run(&mut h, &vec![fix_with_accuracy(Some(1000))]);
    // 100000 mm above sea level is 328 ft; 51444 mm/s is 100 kt
    assert_eq!(o.msl_altitude, 328);
    assert_eq!(o.hae_altitude, 295);
    assert_eq!(o.gs, 100);
    // 37.7503740 degrees in 180/2^23 degree units
    assert_eq!(o.lat, 1759295);

    // first barometric reading latches the altitude, no rate yet
    o.run(&mut h, &vec![SensorData::Baro(1000)]);
    assert_eq!(o.pressure_altitude, Some(1000));
    assert_eq!(o.vs, None);
    // the next one initializes the rate to zero
    o.run(&mut h, &vec![SensorData::Baro(1010)]);
    assert_eq!(o.vs, Some(0));
    // and from then on the rate is smoothed: at 10 Hz a 10 ft rise per
    // tick is 6000 ft/min of instantaneous rate, blended by 1/51
    o.run(&mut h, &vec![SensorData::Baro(1020)]);
    assert_eq!(o.vs, Some(118));
}

#[test]
fn test_clock_decision() {
    let p = pitot::clock::Clock::new();
    let t = UtcTime { year: 2017, month: 5, day: 22, hour: 8, min: 2, sec: 46 };
    let fix = SensorData::GNSS(GNSSData::TimeFix { time: Some(t), fix: None });
    // within two seconds: no correction
    assert_eq!(p.run(1495440168, &vec![fix.clone()]), None);
    // more than two seconds off: realign to satellite time
    assert_eq!(p.run(1495440169, &vec![fix.clone()]), Some(1495440166));
    assert_eq!(p.run(1495440163, &vec![fix]), Some(1495440166));
}

#[test]
fn test_tick_empties_queues() {
    let mut p = Pitot::new(10);
    let items = vec![fix_with_accuracy(Some(1000)), SensorData::Baro(1200)];
    let out = p.tick(1495440166, 1000, items);
    assert_eq!(p.sensor_queue.len(), 0);
    assert_eq!(p.report_queue.len(), 0);
    assert_eq!(p.payload_queue.len(), 0);
    // both accepted items published the ownship state
    assert_eq!(out.ownship_reports.len(), 2);
    assert!(out.ownship_reports[1].valid);
    assert_eq!(out.set_clock, None);
    assert!(!out.should_ping);

    // run a second tick with nothing: still clean
    let out2 = p.tick(1495440166, 1100, Vec::new());
    assert_eq!(p.sensor_queue.len(), 0);
    assert_eq!(p.report_queue.len(), 0);
    assert_eq!(p.payload_queue.len(), 0);
    assert_eq!(out2.ownship_reports.len(), 0);
}

/// Split a datagram of concatenated frames at its flag bytes.
fn split_frames(datagram: &Vec<u8>) -> Vec<Vec<u8>> {
    let mut frames: Vec<Vec<u8>> = Vec::new();
    let mut i: usize = 0;
    while i < datagram.len() {
        assert_eq!(datagram[i], 0x7E);
        let mut j = i + 1;
        while datagram[j] != 0x7E {
            j += 1;
        }
        frames.push(datagram[i..=j].to_vec());
        i = j + 1;
    }
    frames
}

fn heartbeat_count(datagrams: &Vec<Vec<u8>>) -> usize {
    let mut n: usize = 0;
    for d in datagrams {
        for f in split_frames(d) {
            if let Some(msg) = decode_frame(&f) {
                if msg.len() == 7 && msg[0] == 0x00 {
                    n += 1;
                }
            }
        }
    }
    n
}

#[test]
fn test_tick_heartbeat_cadence() {
    // at 10 Hz the heartbeat pair goes out once a second
    let mut p = Pitot::new(10);
    let mut beats: usize = 0;
    for tick in 0..20u64 {
        let out = p.tick(3723, tick * 100, Vec::new());
        beats += heartbeat_count(&out.datagrams);
    }
    assert_eq!(beats, 2);
}

#[test]
fn test_udp_drain_pacing() {
    // fifty queueable payloads of 737 bytes at 10 Hz: the paced drain takes
    // the ceiling of a tenth of the backlog each tick
    let mut udp = UDP::new();
    let incoming: Vec<Payload> =
        (0..50).map(|_| Payload { queueable: true, payload: vec![0x55; 737] }).collect();
    let (_, drained) = udp.assemble(10, &incoming);
    assert_eq!(drained, 5);
    assert_eq!(udp.queue.len(), 45);

    let none: Vec<Payload> = Vec::new();
    let mut drains: Vec<usize> = Vec::new();
    let mut ticks: usize = 0;
    while udp.queue.len() > 0 {
        let (datagrams, d) = udp.assemble(10, &none);
        for dg in &datagrams {
            assert!(dg.len() <= 1472);
        }
        drains.push(d);
        ticks += 1;
        assert!(ticks < 100);
    }
    // ceil(45/10), ceil(40/10), ... down to the last item
    assert_eq!(&drains[..3], &[5, 4, 4]);
    // 21 further ticks empty the remaining 45
    assert_eq!(ticks, 21);
    assert_eq!(udp.inactive_buffer.len(), 50);
}

#[test]
fn test_udp_queue_bounded_under_load() {
    // ten queueable payloads arriving every tick at 10 Hz: the backlog
    // never grows past freq * ingress
    let mut udp = UDP::new();
    for _ in 0..300 {
        let incoming: Vec<Payload> =
            (0..10).map(|_| Payload { queueable: true, payload: vec![0x11; 737] }).collect();
        udp.assemble(10, &incoming);
        assert!(udp.queue.len() <= 100);
    }
}

#[test]
fn test_udp_immediate_packing() {
    let mut udp = UDP::new();
    // three immediate payloads of 700 bytes: two fit a datagram, the third
    // flushes and follows in its own
    let incoming: Vec<Payload> =
        (0..3).map(|_| Payload { queueable: false, payload: vec![0xAA; 700] }).collect();
    let (datagrams, drained) = udp.assemble(10, &incoming);
    assert_eq!(drained, 0);
    assert_eq!(datagrams.len(), 2);
    assert_eq!(datagrams[0].len(), 1400);
    assert_eq!(datagrams[1].len(), 700);
    assert_eq!(udp.queue.len(), 0);
}

#[test]
fn test_udp_replay() {
    let mut udp = UDP::new();
    let incoming: Vec<Payload> = (0..4u8)
        .map(|i| Payload { queueable: true, payload: vec![i; 800] })
        .collect();
    udp.assemble(10, &incoming);
    let datagrams = udp.replay_datagrams();
    // oldest first, MTU-packed one per datagram at this size
    assert_eq!(datagrams.len(), 4);
    assert_eq!(datagrams[0][0], 0);
    assert_eq!(datagrams[3][0], 3);
}

#[test]
fn test_client_liveness() {
    let mut c = ClientState::new(0);
    assert!(c.active);
    assert!(!c.in_app);

    // five whole seconds without a refused delivery: back in the app
    c.note_echo_reply(4000);
    assert!(!c.reconcile(4000));
    assert!(!c.in_app);
    c.note_echo_reply(5000);
    assert!(c.reconcile(5000));
    assert!(c.in_app);
    // a replay is granted at most once per thirty seconds
    assert!(!c.replay_due(5000));

    // no probe replies for more than ten whole seconds: inactive
    assert!(!c.reconcile(17000));
    assert!(!c.active);

    // a reply brings it back, presumed sleeping first
    c.note_echo_reply(40000);
    assert!(!c.reconcile(40000));
    assert!(c.active);
    assert!(!c.in_app);
    // five quiet seconds later it is in the app again, and the replay is due
    assert!(c.reconcile(45000));
    assert!(c.replay_due(45000));
}

#[test]
fn test_ping_packet_and_echo() {
    let p = ping_packet();
    assert_eq!(p, vec![0x08, 0x00, 0x25, 0xC9, 0xD9, 0x9D, 0x00, 0x00, b'P', b'I', b'T', b'O', b'T']);
    let mut reply = vec![0u8; 22];
    assert!(is_echo_reply(&reply));
    reply[20] = 8;
    assert!(!is_echo_reply(&reply));
    assert!(!is_echo_reply(&vec![0u8; 21]));
}

#[test]
fn test_parse_lease_file() {
    // written-at 1000, two records: one expiring at 1050, one at 2000
    let mut b: Vec<u8> = Vec::new();
    b.extend_from_slice(&[0, 0, 0, 0, 0, 0, 0x03, 0xE8]);
    b.extend_from_slice(&[0, 0, 0, 50, 10, 0, 0, 1]);
    b.extend_from_slice(&[0u8; 28]);
    b.extend_from_slice(&[0, 0, 0x03, 0xE8, 192, 168, 1, 7]);
    b.extend_from_slice(&[0u8; 28]);

    let alive = parse_lease_file(&b, 1049).unwrap();
    assert_eq!(alive, vec![0x0A000001, 0xC0A80107]);
    let alive = parse_lease_file(&b, 1050).unwrap();
    assert_eq!(alive, vec![0xC0A80107]);
    let alive = parse_lease_file(&b, 3000).unwrap();
    assert_eq!(alive, vec![]);
    // too short to hold the header
    assert_eq!(parse_lease_file(&vec![1, 2, 3], 0), None);
}
