//! Wire payloads: what the protocol layer hands to the transport layer.

use vstd::prelude::*;

verus! {

/// The abstract value of a `Payload`.
pub ghost struct PayloadModel {
    pub queueable: bool,
    pub payload: Seq<u8>,
}

/// One block of bytes bound for the wire.  `queueable` payloads are large
/// uplinks eligible for rate-paced egress and replay; the others must ship
/// in the tick that produced them.
#[derive(Debug, PartialEq)]
pub struct Payload {
    pub queueable: bool,
    pub payload: Vec<u8>,
}

impl DeepView for Payload {
    type V = PayloadModel;

    open spec fn deep_view(&self) -> PayloadModel {
        PayloadModel { queueable: self.queueable, payload: self.payload@ }
    }
}

impl Clone for Payload {
    fn clone(&self) -> (r: Self)
        ensures
            r.deep_view() == self.deep_view(),
    {
        let mut v: Vec<u8> = Vec::new();
        let mut i: usize = 0;
        while i < self.payload.len()
            invariant
                i <= self.payload@.len(),
                v@ == self.payload@.take(i as int),
            decreases self.payload@.len() - i,
        {
            v.push(self.payload[i]);
            proof {
                assert(self.payload@.take(i + 1) =~= self.payload@.take(i as int).push(
                    self.payload@[i as int],
                ));
            }
            i = i + 1;
        }
        proof {
            assert(self.payload@.take(self.payload@.len() as int) =~= self.payload@);
        }
        Payload { queueable: self.queueable, payload: v }
    }
}

} // verus!
