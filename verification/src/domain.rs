//! The per-thread protection domain: a thin model of the hardware
//! protection-key register that gates access to the safe memory region.
//!
//! The state is per-thread CPU state, never shared and never persisted.
//! Each transition returns the register value the host runtime must write;
//! the bookkeeping here is what the contracts of the isolation wrapper are
//! proved against.

use vstd::prelude::*;

verus! {

/// The protection key the isolation boundary uses.  Key zero is a stand-in
/// until the surrounding analysis assigns a dedicated key; the register
/// values below are computed from it.
pub const PROTECTION_KEY: u64 = 0;

/// The register value that denies access to the safe region: two permission
/// bits per key, with the access-disable bit set for the protection key.
pub open spec fn pkru_disable_value() -> u64 {
    (2 * PROTECTION_KEY) as u64
}

/// The register value that grants access again.
pub open spec fn pkru_enable_value() -> u64 {
    0
}

/// The per-thread protection-domain state: whether access to the safe
/// region is currently enabled for this thread.
#[derive(Clone, Copy, PartialEq, Eq, Structural, Debug)]
pub struct ProtectionDomain {
    pub enabled: bool,
}

impl ProtectionDomain {
    /// A thread starts with access to the safe region enabled.
    pub fn new_enabled() -> (d: ProtectionDomain)
        ensures
            d.enabled,
    {
        ProtectionDomain { enabled: true }
    }

    /// Denies this thread access to the safe region; the caller must write
    /// the returned value to the protection-key register.
    pub fn disable(&mut self) -> (pkru: u64)
        ensures
            !final(self).enabled,
            pkru == pkru_disable_value(),
    {
        self.enabled = false;
        2 * PROTECTION_KEY
    }

    /// Restores this thread's access to the safe region; the caller must
    /// write the returned value to the protection-key register.
    pub fn enable(&mut self) -> (pkru: u64)
        ensures
            final(self).enabled,
            pkru == pkru_enable_value(),
    {
        self.enabled = true;
        0
    }
}

} // verus!
