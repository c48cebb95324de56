//! Instrumentation and runtime support for a hardware-backed memory
//! isolation boundary between safe and unsafe code paths in one process.
//!
//! The compile-time half walks a control-flow graph whose instructions carry
//! safety tags: it computes balanced start/end markers around maximal unsafe
//! regions and inserts validator calls ahead of unsafe calls into protected
//! smart-pointer types.  The runtime half models the per-thread protection
//! domain, the isolated execution stack it runs on, and the process-wide
//! shadow memory reservation.

pub mod cfg;
pub mod domain;
pub mod markers;
pub mod pass;
pub mod shadow;
pub mod stack;
pub mod validators;
pub mod wrapper;

use vstd::prelude::*;

verus! {

/// Capability trait that marks a type as a protected smart pointer.
///
/// A type implementing this trait owns or mediates access to heap data and
/// keeps out-of-band protection metadata; `synchronize` reconciles that
/// metadata and is invoked through the validator calls that the
/// instrumentation pass inserts.
pub trait MetaUpdate {
    /// Synchronizes the protection metadata of this smart pointer.
    fn synchronize(&self);
}

/// Marks the beginning of an unsafe region at run time.
///
/// The instrumentation pass splices calls to this marker at every region
/// start boundary; the call does nothing beyond serving as a recognizable
/// program point for later analyses.
#[inline(never)]
pub fn __trust_mark_unsafe_start() {
}

/// Marks the end of an unsafe region at run time; the counterpart of
/// [`__trust_mark_unsafe_start`].
#[inline(never)]
pub fn __trust_mark_unsafe_end() {
}

} // verus!
