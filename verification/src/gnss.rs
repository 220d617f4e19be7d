//! The satellite-status processor: tracks fix quality, the number of space
//! vehicles in the solution and the latest per-satellite status, and
//! publishes a report whenever a fresh satellite-status message arrives.

use crate::handle::PushableHandle;
use crate::report::{Report, ReportModel};
use crate::sensor::{FixQuality, GNSSData, SVStatus, SensorData};
use crate::views::dvs;
use vstd::prelude::*;

verus! {

/// The satellite-health picture.
#[derive(Debug, PartialEq)]
pub struct GNSS {
    pub quality: FixQuality,
    pub num_sv: u8,
    pub sv_status: Vec<SVStatus>,
}

/// The abstract value of a `GNSS` report.
pub ghost struct GNSSModel {
    pub quality: FixQuality,
    pub num_sv: u8,
    pub sv_status: Seq<SVStatus>,
}

impl DeepView for GNSS {
    type V = GNSSModel;

    open spec fn deep_view(&self) -> GNSSModel {
        GNSSModel { quality: self.quality, num_sv: self.num_sv, sv_status: self.sv_status@ }
    }
}

impl Clone for GNSS {
    fn clone(&self) -> (r: Self)
        ensures
            r.deep_view() == self.deep_view(),
    {
        let mut v: Vec<SVStatus> = Vec::new();
        let mut i: usize = 0;
        while i < self.sv_status.len()
            invariant
                i <= self.sv_status@.len(),
                v@ == self.sv_status@.take(i as int),
            decreases self.sv_status@.len() - i,
        {
            v.push(self.sv_status[i]);
            proof {
                assert(self.sv_status@.take(i + 1) =~= self.sv_status@.take(i as int).push(
                    self.sv_status@[i as int],
                ));
            }
            i = i + 1;
        }
        proof {
            assert(self.sv_status@.take(self.sv_status@.len() as int) =~= self.sv_status@);
        }
        GNSS { quality: self.quality, num_sv: self.num_sv, sv_status: v }
    }
}

/// Folding one sensor item into the satellite picture: a fix updates quality
/// and vehicle count, a satellite-status message replaces the status list
/// and is published.
pub open spec fn gnss_step(state: GNSSModel, item: SensorData) -> (GNSSModel, Seq<ReportModel>) {
    match item {
        SensorData::GNSS(GNSSData::TimeFix { time, fix }) => {
            if fix is Some {
                let f = fix.unwrap();
                (
                    GNSSModel {
                        quality: f.quality,
                        num_sv: f.num_sv,
                        sv_status: state.sv_status,
                    },
                    Seq::<ReportModel>::empty(),
                )
            } else {
                (state, Seq::<ReportModel>::empty())
            }
        },
        SensorData::GNSS(GNSSData::SatelliteInfo(s)) => {
            let next = GNSSModel { quality: state.quality, num_sv: state.num_sv, sv_status: s@ };
            (next, seq![ReportModel::GNSS(next)])
        },
        _ => (state, Seq::<ReportModel>::empty()),
    }
}

/// Folding a whole tick's sensor items into the satellite picture.
pub open spec fn gnss_fold(state: GNSSModel, items: Seq<SensorData>) -> (GNSSModel, Seq<
    ReportModel,
>)
    decreases items.len(),
{
    if items.len() == 0 {
        (state, Seq::<ReportModel>::empty())
    } else {
        let (mid, out) = gnss_fold(state, items.drop_last());
        let (fin, more) = gnss_step(mid, items.last());
        (fin, out + more)
    }
}

impl GNSS {
    pub fn new() -> (r: Self)
        ensures
            r.quality == FixQuality::Unknown,
            r.num_sv == 0,
            r.sv_status@ == Seq::<SVStatus>::empty(),
    {
        GNSS { quality: FixQuality::Unknown, sv_status: Vec::new(), num_sv: 0 }
    }

    /// Consume a tick's sensor items, updating the satellite picture and
    /// publishing a report for each satellite-status message.
    pub fn run(&mut self, handle: &mut PushableHandle<Report>, items: &Vec<SensorData>)
        ensures
            final (self).deep_view() == gnss_fold(old(self).deep_view(), items@).0,
            dvs(final (handle).queue@) == dvs(old(handle).queue@) + gnss_fold(
                old(self).deep_view(),
                items@,
            ).1,
            final (handle).utc_sec == old(handle).utc_sec,
            final (handle).mono_ms == old(handle).mono_ms,
            final (handle).freq == old(handle).freq,
    {
        let ghost q0 = dvs(old(handle).queue@);
        let mut i: usize = 0;
        while i < items.len()
            invariant
                i <= items@.len(),
                self.deep_view() == gnss_fold(old(self).deep_view(), items@.take(i as int)).0,
                dvs(handle.queue@) == q0 + gnss_fold(
                    old(self).deep_view(),
                    items@.take(i as int),
                ).1,
                q0 == dvs(old(handle).queue@),
                handle.utc_sec == old(handle).utc_sec,
                handle.mono_ms == old(handle).mono_ms,
                handle.freq == old(handle).freq,
            decreases items@.len() - i,
        {
            proof {
                assert(items@.take(i + 1).drop_last() =~= items@.take(i as int));
                assert(items@.take(i + 1).last() == items@[i as int]);
            }
            match &items[i] {
                SensorData::GNSS(GNSSData::TimeFix { time: _, fix: Some(f) }) => {
                    self.quality = f.quality;
                    self.num_sv = f.num_sv;
                },
                SensorData::GNSS(GNSSData::SatelliteInfo(s)) => {
                    let mut v: Vec<SVStatus> = Vec::new();
                    let mut j: usize = 0;
                    while j < s.len()
                        invariant
                            j <= s@.len(),
                            v@ == s@.take(j as int),
                        decreases s@.len() - j,
                    {
                        v.push(s[j]);
                        proof {
                            assert(s@.take(j + 1) =~= s@.take(j as int).push(s@[j as int]));
                        }
                        j = j + 1;
                    }
                    proof {
                        assert(s@.take(s@.len() as int) =~= s@);
                    }
                    self.sv_status = v;
                    let ghost pre_queue = handle.queue@;
                    let rep = self.clone();
                    handle.emit(Report::GNSS(rep));
                    proof {
                        assert(dvs(handle.queue@) =~= dvs(pre_queue).push(
                            ReportModel::GNSS(self.deep_view()),
                        ));
                    }
                },
                _ => {},
            }
            i = i + 1;
        }
        proof {
            assert(items@.take(items@.len() as int) =~= items@);
        }
    }
}

} // verus!
