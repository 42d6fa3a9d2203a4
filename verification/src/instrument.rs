//! Instrument handles: a `Counter` is either a no-op or a recording handle
//! over a writer capability. Gauges and histograms share the same cell
//! mechanics through the raw-bits operations of `Write`; their
//! floating-point arithmetic lives with the caller.

use std::sync::atomic::{AtomicU64, Ordering};
use std::sync::Arc;
use vstd::prelude::*;

verus! {

/// Registry implementations provide this capability behind a recording
/// counter handle.
pub trait CounterWrite: Send + Sync {
    /// Increment the counter by `step`.
    fn increment(&self, step: u64);

    /// Set the counter to `value`.
    fn absolute(&self, value: u64);
}

/// A writer that records into one shared atomic value cell.
pub struct Write(pub Arc<AtomicU64>);

impl Write {
    /// The raw bits this writer's cell holds right now. Other handles to
    /// the same cell update it concurrently, so no two loads need agree.
    pub fn load_bits(&self) -> u64 {
        self.0.load(Ordering::Acquire)
    }

    /// Store raw bits unconditionally: last write wins. Used for absolute
    /// counter sets, gauge sets and histogram records.
    pub fn store_bits(&self, bits: u64) {
        self.0.swap(bits, Ordering::AcqRel);
    }

    /// Replace `current` with `new` only if the cell still holds
    /// `current`; the retry step of read-modify-write updates. Returns the
    /// bits observed when the exchange fails.
    pub fn exchange_bits(&self, current: u64, new: u64) -> Result<u64, u64> {
        self.0.compare_exchange(current, new, Ordering::AcqRel, Ordering::Relaxed)
    }
}

impl CounterWrite for Write {
    /// Saturation-free wrapping add directly on the cell.
    fn increment(&self, step: u64) {
        let _ = self.0.fetch_add(step, Ordering::AcqRel);
    }

    fn absolute(&self, value: u64) {
        let _ = self.0.swap(value, Ordering::AcqRel);
    }
}

/// `Counter` measuring instrument: a no-op when no registry is configured,
/// otherwise a thin wrapper over a writer capability.
pub enum Counter<W> {
    Noop,
    Record(W),
}

impl<W: CounterWrite> Counter<W> {
    /// Increment the counter by `step`; nothing happens on a no-op handle.
    #[inline]
    pub fn increment(&self, step: u64) {
        match self {
            Counter::Noop => {},
            Counter::Record(raw_counter) => raw_counter.increment(step),
        }
    }

    /// Set the counter to `value`; nothing happens on a no-op handle.
    #[inline]
    pub fn absolute(&self, value: u64) {
        match self {
            Counter::Noop => {},
            Counter::Record(raw_counter) => raw_counter.absolute(value),
        }
    }
}

} // verus!
