//! The clock processor: watches timestamped navigation fixes and decides
//! when the system wall clock has drifted far enough from satellite time to
//! be realigned.  The realignment itself is an operating-system action that
//! the caller performs; this processor only picks the target time.

use crate::sensor::{epoch_secs, GNSSData, SensorData};
use vstd::prelude::*;

verus! {

/// Realign the wall clock when it is more than this many seconds away from
/// satellite time.
pub const MAX_TOLERANCE_SECS: i64 = 2;

/// The satellite time (seconds since the Unix epoch) to set the wall clock
/// to: that of the first timestamped fix in the tick that differs from the
/// wall clock by more than the tolerance; `None` when every timestamp is
/// close enough.
pub open spec fn clock_adjustment(utc_sec: i64, items: Seq<SensorData>) -> Option<i64>
    decreases items.len(),
{
    if items.len() == 0 {
        None
    } else {
        match items[0] {
            SensorData::GNSS(GNSSData::TimeFix { time, fix }) => {
                if time is Some {
                    let g = epoch_secs(time.unwrap());
                    if utc_sec - g > MAX_TOLERANCE_SECS || utc_sec - g < -(MAX_TOLERANCE_SECS as int) {
                        Some(g as i64)
                    } else {
                        clock_adjustment(utc_sec, items.skip(1))
                    }
                } else {
                    clock_adjustment(utc_sec, items.skip(1))
                }
            },
            _ => clock_adjustment(utc_sec, items.skip(1)),
        }
    }
}

/// The clock processor.  It keeps no state; it exists so that the pipeline
/// can hold one instance per stage slot.
pub struct Clock {}

impl Clock {
    pub fn new() -> (r: Self) {
        Clock {  }
    }

    /// Scan a tick's sensor items and return the satellite time the wall
    /// clock should be realigned to, if any.  Scanning stops at the first
    /// drifted timestamp, as one correction per tick is enough.
    pub fn run(&self, utc_sec: i64, items: &Vec<SensorData>) -> (r: Option<i64>)
        ensures
            r == clock_adjustment(utc_sec, items@),
    {
        let n = items.len();
        proof {
            assert(items@.skip(0) =~= items@);
        }
        let mut i: usize = 0;
        while i < n
            invariant
                i <= n,
                n == items@.len(),
                clock_adjustment(utc_sec, items@) == clock_adjustment(
                    utc_sec,
                    items@.skip(i as int),
                ),
            decreases n - i,
        {
            let ghost pre = items@.skip(i as int);
            proof {
                assert(pre[0] == items@[i as int]);
                assert(pre.skip(1) =~= items@.skip(i + 1));
            }
            match &items[i] {
                SensorData::GNSS(GNSSData::TimeFix { time: Some(t), fix: _ }) => {
                    let g: i64 = t.timestamp();
                    let d: i128 = utc_sec as i128 - g as i128;
                    if d > MAX_TOLERANCE_SECS as i128 || d < -(MAX_TOLERANCE_SECS as i128) {
                        return Some(g);
                    }
                },
                _ => {},
            }
            i = i + 1;
        }
        proof {
            assert(items@.skip(n as int) =~= Seq::<SensorData>::empty());
        }
        None
    }
}

} // verus!
