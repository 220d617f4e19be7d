//! The element-wise deep view of a sequence: how a queue of values appears
//! as a sequence of their abstract models.

use vstd::prelude::*;

verus! {

/// Element-wise deep view of a sequence.
pub open spec fn dvs<T: DeepView>(s: Seq<T>) -> Seq<T::V> {
    Seq::new(s.len(), |i: int| s[i].deep_view())
}

} // verus!
