//! FIS-B uplink pass-through: forwards uplink payloads from the sensor layer
//! to the protocol layer unchanged, counting what went through.

use crate::handle::PushableHandle;
use crate::report::{Report, ReportModel};
use crate::sensor::SensorData;
use crate::views::dvs;
use vstd::prelude::*;

verus! {

/// One FIS-B uplink payload (the 432-byte application data of an uplink
/// frame).
#[derive(Debug, PartialEq)]
pub struct FISBData {
    pub payload: Vec<u8>,
}

impl DeepView for FISBData {
    type V = Seq<u8>;

    open spec fn deep_view(&self) -> Seq<u8> {
        self.payload@
    }
}

impl Clone for FISBData {
    fn clone(&self) -> (r: Self)
        ensures
            r.deep_view() == self.deep_view(),
    {
        let mut v: Vec<u8> = Vec::new();
        let mut i: usize = 0;
        while i < self.payload.len()
            invariant
                i <= self.payload@.len(),
                v@ == self.payload@.take(i as int),
            decreases self.payload@.len() - i,
        {
            v.push(self.payload[i]);
            proof {
                assert(self.payload@.take(i + 1) =~= self.payload@.take(i as int).push(
                    self.payload@[i as int],
                ));
            }
            i = i + 1;
        }
        proof {
            assert(self.payload@.take(self.payload@.len() as int) =~= self.payload@);
        }
        FISBData { payload: v }
    }
}

/// The FIS-B processor.
pub struct FISB {
    pub count: usize,
}

/// The uplink payloads among a tick's sensor items, as reports, in order.
pub open spec fn fisb_reports(items: Seq<SensorData>) -> Seq<ReportModel>
    decreases items.len(),
{
    if items.len() == 0 {
        Seq::<ReportModel>::empty()
    } else {
        let rest = fisb_reports(items.drop_last());
        match items.last() {
            SensorData::FISB(p) => rest.push(ReportModel::FISB(p.payload@)),
            _ => rest,
        }
    }
}

impl FISB {
    pub fn new() -> (r: Self)
        ensures
            r.count == 0,
    {
        FISB { count: 0 }
    }

    /// Forward every uplink payload of this tick as a report.
    pub fn run(&mut self, handle: &mut PushableHandle<Report>, items: &Vec<SensorData>)
        requires
            old(self).count + items@.len() <= usize::MAX,
        ensures
            dvs(final (handle).queue@) == dvs(old(handle).queue@) + fisb_reports(items@),
            final (handle).utc_sec == old(handle).utc_sec,
            final (handle).mono_ms == old(handle).mono_ms,
            final (handle).freq == old(handle).freq,
            final (self).count == old(self).count + fisb_reports(items@).len(),
    {
        let ghost n0 = old(self).count as int;
        let ghost q0 = dvs(old(handle).queue@);
        let mut i: usize = 0;
        while i < items.len()
            invariant
                i <= items@.len(),
                dvs(handle.queue@) == q0 + fisb_reports(items@.take(i as int)),
                q0 == dvs(old(handle).queue@),
                handle.utc_sec == old(handle).utc_sec,
                handle.mono_ms == old(handle).mono_ms,
                handle.freq == old(handle).freq,
                self.count == n0 + fisb_reports(items@.take(i as int)).len(),
                fisb_reports(items@.take(i as int)).len() <= i,
                n0 + items@.len() <= usize::MAX,
            decreases items@.len() - i,
        {
            proof {
                assert(items@.take(i + 1).drop_last() =~= items@.take(i as int));
                assert(items@.take(i + 1).last() == items@[i as int]);
            }
            let ghost pre_queue = handle.queue@;
            match &items[i] {
                SensorData::FISB(p) => {
                    handle.emit(Report::FISB(p.clone()));
                    self.count = self.count + 1;
                    proof {
                        assert(dvs(handle.queue@) =~= dvs(pre_queue).push(
                            ReportModel::FISB(p.payload@),
                        ));
                    }
                },
                _ => {},
            }
            i = i + 1;
        }
        proof {
            assert(items@.take(items@.len() as int) =~= items@);
        }
    }
}

} // verus!
