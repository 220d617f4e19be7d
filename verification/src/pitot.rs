//! The pipeline: once per tick the sensor items flow through the
//! processors (ownship, clock, traffic, uplink pass-through, satellite
//! status), the reports through the GDL 90 protocol, and the payloads
//! through the transport's packer; every internal queue is empty again
//! when the tick ends.

use crate::clock::{clock_adjustment, Clock};
use crate::fisb::{fisb_reports, FISB};
use crate::gdl90::{gdl90_run_spec, GDL90};
use crate::gnss::{gnss_fold, GNSS};
use crate::handle::{BasicHandle, PushableHandle};
use crate::ownship::{ownship_fold, Ownship};
use crate::payload::{Payload, PayloadModel};
use crate::report::{Report, ReportModel};
use crate::sensor::SensorData;
use crate::traffic::{sit_wf, target_wf, traffic_run_spec, Traffic};
use crate::udp::{udp_assemble_spec, UDP};
use crate::views::dvs;
use vstd::prelude::*;

verus! {

/// The Ownship values among a tick's reports, in order: what the
/// state-broadcast side channel publishes.
pub open spec fn ownship_only(reports: Seq<ReportModel>) -> Seq<Ownship>
    decreases reports.len(),
{
    if reports.len() == 0 {
        Seq::<Ownship>::empty()
    } else {
        let rest = ownship_only(reports.drop_last());
        match reports.last() {
            ReportModel::Ownship(o) => rest.push(o),
            _ => rest,
        }
    }
}

/// Every uplink sensor item of the tick carries a whole 432-byte uplink
/// application payload.
pub open spec fn fisb_items_wf(items: Seq<SensorData>) -> bool {
    forall|i: int|
        0 <= i < items.len() ==> ((#[trigger] items[i]) matches SensorData::FISB(f)
            ==> f.payload@.len() == 432)
}

/// Every report of the sequence that the GDL 90 stage constrains is well
/// formed: uplink reports carry 432 bytes, traffic reports carry timestamps
/// at or before `now`.
pub open spec fn reports_wf(reports: Seq<ReportModel>, now: u64) -> bool {
    &&& forall|i: int|
        0 <= i < reports.len() ==> ((#[trigger] reports[i]) matches ReportModel::FISB(p)
            ==> p.len() == 432)
    &&& forall|i: int|
        0 <= i < reports.len() ==> ((#[trigger] reports[i]) matches ReportModel::Traffic(t)
            ==> target_wf(t, now))
}

proof fn lemma_ownship_reports_wf(o: Ownship, items: Seq<SensorData>, freq: u16, now: u64)
    ensures
        reports_wf(ownship_fold(o, items, freq).1, now),
    decreases items.len(),
{
    if items.len() > 0 {
        lemma_ownship_reports_wf(o, items.drop_last(), freq, now);
    }
}

proof fn lemma_gnss_reports_wf(g: crate::gnss::GNSSModel, items: Seq<SensorData>, now: u64)
    ensures
        reports_wf(gnss_fold(g, items).1, now),
    decreases items.len(),
{
    if items.len() > 0 {
        lemma_gnss_reports_wf(g, items.drop_last(), now);
    }
}

proof fn lemma_fisb_reports_wf(items: Seq<SensorData>, now: u64)
    requires
        fisb_items_wf(items),
    ensures
        reports_wf(fisb_reports(items), now),
    decreases items.len(),
{
    if items.len() > 0 {
        assert(fisb_items_wf(items.drop_last())) by {
            assert(forall|i: int|
                0 <= i < items.len() - 1 ==> items.drop_last()[i] == items[i]);
        }
        lemma_fisb_reports_wf(items.drop_last(), now);
        assert(items.last() == items[items.len() - 1]);
    }
}

proof fn lemma_reports_wf_concat(a: Seq<ReportModel>, b: Seq<ReportModel>, now: u64)
    requires
        reports_wf(a, now),
        reports_wf(b, now),
    ensures
        reports_wf(a + b, now),
{
    assert forall|i: int| 0 <= i < (a + b).len() implies ((#[trigger] (a + b)[i]) matches
        ReportModel::FISB(p) ==> p.len() == 432) && ((a + b)[i] matches ReportModel::Traffic(t)
        ==> target_wf(t, now)) by {
        if i < a.len() {
            assert((a + b)[i] == a[i]);
        } else {
            assert((a + b)[i] == b[i - a.len()]);
        }
    }
}

/// What a tick hands back to its caller: the datagrams for every client,
/// how many backlog entries were drained, whether to probe the clients,
/// the ownship states for the broadcast side channel, and the wall-clock
/// realignment, if one is due.
pub struct TickOutput {
    pub datagrams: Vec<Vec<u8>>,
    pub drained: usize,
    pub should_ping: bool,
    pub ownship_reports: Vec<Ownship>,
    pub set_clock: Option<i64>,
}

/// The pipeline: the processor, protocol and transport states and the
/// three stage queues.
pub struct Pitot {
    pub frequency: u16,
    pub sensor_queue: Vec<SensorData>,
    pub report_queue: Vec<Report>,
    pub payload_queue: Vec<Payload>,
    pub ownship: Ownship,
    pub clock: Clock,
    pub traffic: Traffic,
    pub fisb: FISB,
    pub gnss: GNSS,
    pub gdl90: GDL90,
    pub udp: UDP,
}

/// The conditions under which a tick runs: queues empty, counters with
/// room to advance, a well-formed traffic situation, and enough headroom
/// in the transport backlog.
pub open spec fn tick_ready(p: Pitot, mono_ms: u64, n_items: int) -> bool {
    &&& p.frequency >= 1
    &&& p.sensor_queue@.len() == 0
    &&& p.report_queue@.len() == 0
    &&& p.payload_queue@.len() == 0
    &&& p.traffic.cleanup_counter < u32::MAX
    &&& p.traffic.report_counter < u32::MAX
    &&& p.gdl90.ownship_counter < u32::MAX
    &&& p.gdl90.heartbeat_counter < u32::MAX
    &&& p.udp.ping_counter < u32::MAX
    &&& sit_wf(dvs(p.traffic.situation@), mono_ms)
    &&& p.fisb.count + n_items <= usize::MAX
}

impl Pitot {
    /// A pipeline at the given tick frequency, with fresh stage states and
    /// empty queues.
    pub fn new(freq: u16) -> (r: Self)
        requires
            freq >= 1,
        ensures
            r.frequency == freq,
            forall|ms: u64, n: int| 0 <= n <= 100000 ==> tick_ready(r, ms, n),
    {
        let r = Pitot {
            frequency: freq,
            sensor_queue: Vec::new(),
            report_queue: Vec::new(),
            payload_queue: Vec::new(),
            ownship: Ownship::new(),
            clock: Clock::new(),
            traffic: Traffic::new(),
            fisb: FISB::new(),
            gnss: GNSS::new(),
            gdl90: GDL90::new(),
            udp: UDP::new(),
        };
        proof {
            assert forall|ms: u64, n: int| 0 <= n <= 100000 implies tick_ready(r, ms, n) by {
                assert(dvs(r.traffic.situation@).len() == 0);
            }
        }
        r
    }

    /// Run one tick: sensors' items through the processors, reports
    /// through the protocol, payloads through the transport packer.
    /// Afterwards every stage queue is empty again.
    pub fn tick(&mut self, utc_sec: i64, mono_ms: u64, sensors: Vec<SensorData>) -> (out:
        TickOutput)
        requires
            tick_ready(*old(self), mono_ms, sensors@.len() as int),
            utc_sec > i64::MIN,
            fisb_items_wf(sensors@),
        ensures
            ({
                let freq = old(self).frequency;
                let own = ownship_fold(old(self).ownship, sensors@, freq);
                let trf = traffic_run_spec(
                    dvs(old(self).traffic.situation@),
                    old(self).traffic.cleanup_counter,
                    old(self).traffic.report_counter,
                    sensors@,
                    mono_ms,
                    freq,
                );
                let fsb = fisb_reports(sensors@);
                let gns = gnss_fold(old(self).gnss.deep_view(), sensors@);
                let reports = own.1 + trf.3 + fsb + gns.1;
                let gdl = gdl90_run_spec(old(self).gdl90, reports, utc_sec, mono_ms, freq);
                let udp = udp_assemble_spec(
                    dvs(old(self).udp.queue@),
                    dvs(old(self).udp.inactive_buffer@),
                    gdl.1,
                    freq,
                );
                &&& final (self).ownship == own.0
                &&& dvs(final (self).traffic.situation@) == trf.0
                &&& final (self).traffic.cleanup_counter == trf.1
                &&& final (self).traffic.report_counter == trf.2
                &&& final (self).gnss.deep_view() == gns.0
                &&& final (self).gdl90 == gdl.0
                &&& dvs(final (self).udp.queue@) == udp.0
                &&& dvs(final (self).udp.inactive_buffer@) == udp.1
                &&& dvs(out.datagrams@) == udp.2
                &&& out.drained == udp.3
                &&& out.ownship_reports@ == ownship_only(reports)
                &&& out.set_clock == clock_adjustment(utc_sec, sensors@)
                &&& out.should_ping == ((old(self).udp.ping_counter + 1) as u32
                    >= crate::util::run_every_ticks(freq, 10))
            }),
            // every stage queue is drained by the stage after it and is
            // empty when the tick ends
            final (self).sensor_queue@.len() == 0,
            final (self).report_queue@.len() == 0,
            final (self).payload_queue@.len() == 0,
            final (self).frequency == old(self).frequency,
            sit_wf(dvs(final (self).traffic.situation@), mono_ms),
            final (self).udp.inactive_buffer@.len() <= crate::udp::INACTIVE_BUFFER_SIZE,
    {
        let freq = self.frequency;
        let handle = BasicHandle::new(utc_sec, mono_ms, freq);

        // sensor stage: this tick's items become the sensor queue
        self.sensor_queue = sensors;
        let ghost items = self.sensor_queue@;

        // processor stage
        let mut rh: PushableHandle<Report> = PushableHandle::new(&handle);
        proof {
            assert(dvs(rh.queue@) =~= Seq::<ReportModel>::empty());
        }
        self.ownship.run(&mut rh, &self.sensor_queue);
        let set_clock = self.clock.run(utc_sec, &self.sensor_queue);
        self.traffic.run(&mut rh, &self.sensor_queue);
        self.fisb.run(&mut rh, &self.sensor_queue);
        self.gnss.run(&mut rh, &self.sensor_queue);
        self.sensor_queue = Vec::new();
        self.report_queue = rh.queue;

        // protocol stage
        let ghost reports_m = dvs(self.report_queue@);
        proof {
            let own2 = ownship_fold(old(self).ownship, items, freq);
            let trf = traffic_run_spec(
                dvs(old(self).traffic.situation@),
                old(self).traffic.cleanup_counter,
                old(self).traffic.report_counter,
                items,
                mono_ms,
                freq,
            );
            let fsb = fisb_reports(items);
            let gns = gnss_fold(old(self).gnss.deep_view(), items);
            assert(reports_m =~= own2.1 + trf.3 + fsb + gns.1);
            lemma_ownship_reports_wf(old(self).ownship, items, freq, mono_ms);
            lemma_traffic_emit_wf(
                dvs(old(self).traffic.situation@),
                old(self).traffic.cleanup_counter,
                old(self).traffic.report_counter,
                items,
                mono_ms,
                freq,
            );
            lemma_fisb_reports_wf(items, mono_ms);
            lemma_gnss_reports_wf(old(self).gnss.deep_view(), items, mono_ms);
            lemma_reports_wf_concat(own2.1, trf.3, mono_ms);
            lemma_reports_wf_concat(own2.1 + trf.3, fsb, mono_ms);
            lemma_reports_wf_concat(own2.1 + trf.3 + fsb, gns.1, mono_ms);
            assert(reports_wf(reports_m, mono_ms));
            assert forall|i: int|
                0 <= i < self.report_queue@.len() implies ((#[trigger] self.report_queue@[i])
                matches Report::FISB(f) ==> f.payload@.len() == 432) && (self.report_queue@[i]
                matches Report::Traffic(t) ==> target_wf(t.deep_view(), mono_ms)) by {
                assert(reports_m[i] == self.report_queue@[i].deep_view());
            }
        }
        let mut ph: PushableHandle<Payload> = PushableHandle::new(&handle);
        proof {
            assert(dvs(ph.queue@) =~= Seq::<PayloadModel>::empty());
        }
        self.gdl90.run(&mut ph, &self.report_queue);

        // the state-broadcast side channel takes every ownship report
        let mut ownship_reports: Vec<Ownship> = Vec::new();
        let mut i: usize = 0;
        while i < self.report_queue.len()
            invariant
                i <= self.report_queue@.len(),
                reports_m == dvs(self.report_queue@),
                ownship_reports@ == ownship_only(reports_m.take(i as int)),
            decreases self.report_queue@.len() - i,
        {
            proof {
                assert(reports_m.take(i + 1).drop_last() =~= reports_m.take(i as int));
                assert(reports_m.take(i + 1).last() == self.report_queue@[i as int].deep_view());
            }
            match &self.report_queue[i] {
                Report::Ownship(o) => {
                    ownship_reports.push(*o);
                },
                _ => {},
            }
            i = i + 1;
        }
        proof {
            assert(reports_m.take(reports_m.len() as int) =~= reports_m);
        }
        self.report_queue = Vec::new();
        self.payload_queue = ph.queue;

        // transport stage
        let should_ping = self.udp.should_ping(freq);
        let (datagrams, drained) = self.udp.assemble(freq, &self.payload_queue);
        self.payload_queue = Vec::new();

        TickOutput { datagrams, drained, should_ping, ownship_reports, set_clock }
    }
}

/// Every target a traffic emission publishes satisfies the timestamp
/// discipline.
proof fn lemma_traffic_emit_wf(
    s: Seq<crate::traffic::TargetModel>,
    cc: u32,
    rc: u32,
    items: Seq<SensorData>,
    now: u64,
    freq: u16,
)
    requires
        sit_wf(s, now),
        cc < u32::MAX,
        rc < u32::MAX,
    ensures
        reports_wf(traffic_run_spec(s, cc, rc, items, now, freq).3, now),
{
    let s1 = crate::traffic::traffic_fold(s, items, now);
    crate::traffic::lemma_fold_wf(s, items, now);
    let cc1 = (cc + 1) as u32;
    let cleanup_due = cc1 >= crate::util::run_every_ticks(freq, 1);
    let s2 = if cleanup_due {
        crate::traffic::cleanup_filter(s1, now)
    } else {
        s1
    };
    if cleanup_due {
        crate::traffic::lemma_cleanup_entries(s1, now);
        assert forall|i: int| 0 <= i < s2.len() implies target_wf(#[trigger] s2[i], now) by {
            let w = choose|w: int| 0 <= w < s1.len() && s1[w] == s2[i];
        }
    }
    assert(forall|i: int| 0 <= i < s2.len() ==> target_wf(#[trigger] s2[i], now));
    lemma_fresh_reports_wf(s2, now);
}

proof fn lemma_fresh_reports_wf(s: Seq<crate::traffic::TargetModel>, now: u64)
    requires
        forall|i: int| 0 <= i < s.len() ==> target_wf(#[trigger] s[i], now),
    ensures
        reports_wf(crate::traffic::fresh_reports(s, now), now),
    decreases s.len(),
{
    if s.len() > 0 {
        assert(forall|i: int| 0 <= i < s.len() - 1 ==> s.drop_last()[i] == s[i]);
        lemma_fresh_reports_wf(s.drop_last(), now);
        assert(s.last() == s[s.len() - 1]);
    }
}

} // verus!
