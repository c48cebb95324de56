//! The domain-switch protocol around an isolated unit of work.
//!
//! The host runtime runs a caller-supplied callable on the isolated stack
//! with the protection domain disabled.  This module fixes the order of
//! the protocol: disable the domain, run the work catching any abnormal
//! termination, restore the domain, and only then — with the domain
//! provably re-enabled — re-raise the caught termination.  The domain is
//! never left disabled on any exit path.

use vstd::prelude::*;

use crate::domain::{pkru_disable_value, pkru_enable_value, ProtectionDomain};

verus! {

/// How the wrapped unit of work ended.  The payload of an abnormal
/// termination stays with the host runtime; the protocol only needs to
/// know that it must be re-raised.
#[derive(Clone, Copy, PartialEq, Eq, Structural, Debug)]
pub enum Outcome {
    Normal,
    Abnormal,
}

/// The domain state entering the isolated call: access denied.
pub open spec fn spec_begin(d: ProtectionDomain) -> ProtectionDomain {
    ProtectionDomain { enabled: false }
}

/// The conclusion of the isolated call: the domain is re-enabled whatever
/// the outcome was, and the termination is re-raised exactly when the work
/// ended abnormally — strictly after the domain is restored.
pub open spec fn spec_finish(d: ProtectionDomain, o: Outcome) -> (ProtectionDomain, bool) {
    (ProtectionDomain { enabled: true }, o == Outcome::Abnormal)
}

/// Starts an isolated call: denies the domain.  The caller writes the
/// returned register value, switches to the isolated stack, and runs the
/// work there, catching any abnormal termination.
pub fn begin_isolated(domain: &mut ProtectionDomain) -> (pkru: u64)
    ensures
        *final(domain) == spec_begin(*old(domain)),
        !final(domain).enabled,
        pkru == pkru_disable_value(),
{
    domain.disable()
}

/// Concludes an isolated call whose work ended with `outcome`: restores
/// the domain first, and tells the caller whether a caught abnormal
/// termination must now — and only now — be re-raised.
pub fn finish_isolated(domain: &mut ProtectionDomain, outcome: Outcome) -> (r: (u64, bool))
    ensures
        (*final(domain), r.1) == spec_finish(*old(domain), outcome),
        final(domain).enabled,
        r.0 == pkru_enable_value(),
        r.1 == (outcome == Outcome::Abnormal),
{
    let pkru = domain.enable();
    (pkru, matches!(outcome, Outcome::Abnormal))
}

/// Domain restoration under fault: for any starting domain state and any
/// outcome of the wrapped work — normal return or abnormal termination —
/// running the protocol leaves the thread's domain enabled, and the
/// re-raise is signalled only with the domain already restored.
pub proof fn lemma_domain_restored(d: ProtectionDomain, o: Outcome)
    ensures
        spec_finish(spec_begin(d), o).0.enabled,
        spec_finish(spec_begin(d), o).1 == (o == Outcome::Abnormal),
{
}

} // verus!
