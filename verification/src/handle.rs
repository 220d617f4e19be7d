//! The per-tick handle: wall-clock and monotonic timestamps plus the
//! configured tick frequency, and the pushable variant through which one
//! pipeline stage feeds the next stage's queue.

use vstd::prelude::*;

verus! {

/// Immutable per-tick clock and configuration data.
///
/// `utc_sec` is the wall clock as seconds since the Unix epoch; `mono_ms` is
/// a monotonic timestamp in milliseconds that never jumps backwards; `freq`
/// is the pipeline tick frequency in Hz.
#[derive(Clone, Copy, Debug)]
pub struct BasicHandle {
    pub utc_sec: i64,
    pub mono_ms: u64,
    pub freq: u16,
}

impl BasicHandle {
    pub fn new(utc_sec: i64, mono_ms: u64, freq: u16) -> (r: Self)
        ensures
            r.utc_sec == utc_sec,
            r.mono_ms == mono_ms,
            r.freq == freq,
    {
        BasicHandle { utc_sec, mono_ms, freq }
    }

    pub fn get_utc(&self) -> (r: i64)
        ensures
            r == self.utc_sec,
    {
        self.utc_sec
    }

    pub fn get_clock(&self) -> (r: u64)
        ensures
            r == self.mono_ms,
    {
        self.mono_ms
    }

    pub fn get_frequency(&self) -> (r: u16)
        ensures
            r == self.freq,
    {
        self.freq
    }
}

/// A sink into which a pipeline stage pushes the items it produces.
pub trait Pushable<D>: Sized {
    spec fn pushed(&self) -> Seq<D>;

    fn push_data(&mut self, d: D)
        ensures
            final (self).pushed() == old(self).pushed().push(d),
    ;
}

/// A handle that also carries the queue of the next pipeline stage; pushing
/// appends to that queue.
pub struct PushableHandle<D> {
    pub utc_sec: i64,
    pub mono_ms: u64,
    pub freq: u16,
    pub queue: Vec<D>,
}

impl<D> PushableHandle<D> {
    /// A pushable handle for this tick with an empty queue.
    pub fn new(h: &BasicHandle) -> (r: Self)
        ensures
            r.utc_sec == h.utc_sec,
            r.mono_ms == h.mono_ms,
            r.freq == h.freq,
            r.queue@ == Seq::<D>::empty(),
    {
        PushableHandle { utc_sec: h.utc_sec, mono_ms: h.mono_ms, freq: h.freq, queue: Vec::new() }
    }

    pub fn get_utc(&self) -> (r: i64)
        ensures
            r == self.utc_sec,
    {
        self.utc_sec
    }

    pub fn get_clock(&self) -> (r: u64)
        ensures
            r == self.mono_ms,
    {
        self.mono_ms
    }

    pub fn get_frequency(&self) -> (r: u16)
        ensures
            r == self.freq,
    {
        self.freq
    }

    /// Append an item to the next stage's queue, leaving the clock and
    /// frequency untouched.
    pub fn emit(&mut self, d: D)
        ensures
            final (self).queue@ == old(self).queue@.push(d),
            final (self).utc_sec == old(self).utc_sec,
            final (self).mono_ms == old(self).mono_ms,
            final (self).freq == old(self).freq,
    {
        self.queue.push(d);
    }
}

impl<D> Pushable<D> for PushableHandle<D> {
    open spec fn pushed(&self) -> Seq<D> {
        self.queue@
    }

    fn push_data(&mut self, d: D) {
        self.queue.push(d);
    }
}

} // verus!
