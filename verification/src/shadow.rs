//! The process-wide shadow memory reservation: one fixed, very large,
//! sparse virtual address window reserved once at process start for
//! protected-pointer metadata.
//!
//! The reservation is deliberately not idempotent: the address window is a
//! constant, so a second reservation attempt without a release conflicts
//! with the first.  A failed mapping is fatal — continuing would silently
//! void the isolation guarantee.

use vstd::prelude::*;

verus! {

/// Base address of the shadow window.
pub const SHADOW_ADDR: u64 = 0x510000000000;

/// Size of the shadow window.
pub const SHADOW_SIZE: u64 = 0x20000000000;

/// Why a reservation attempt is refused.
#[derive(Clone, Copy, PartialEq, Eq, Structural, Debug)]
pub enum ReserveError {
    /// The fixed window is already reserved; a second mapping at the same
    /// address would conflict.
    AddressInUse,
}

/// Tracks whether the process has already reserved the shadow window.
#[derive(Clone, Copy, PartialEq, Eq, Structural, Debug)]
pub struct ShadowMemoryReservation {
    pub reserved: bool,
}

/// What one reservation attempt does to the tracking state: the first
/// attempt yields the fixed window and marks it reserved; any further
/// attempt without an intervening release is refused.
pub open spec fn spec_reserve(s: ShadowMemoryReservation) -> (
    ShadowMemoryReservation,
    Result<(u64, u64), ReserveError>,
) {
    if s.reserved {
        (s, Result::Err(ReserveError::AddressInUse))
    } else {
        (
            ShadowMemoryReservation { reserved: true },
            Result::Ok((SHADOW_ADDR, SHADOW_SIZE)),
        )
    }
}

impl ShadowMemoryReservation {
    /// At process start nothing is reserved.
    pub fn new() -> (s: ShadowMemoryReservation)
        ensures
            !s.reserved,
    {
        ShadowMemoryReservation { reserved: false }
    }

    /// Plans one reservation attempt: on the first call it hands the host
    /// runtime the fixed window to map — read/write, anonymous, excluded
    /// from swap accounting — and records it; a repeated call is refused.
    pub fn plan_reservation(&mut self) -> (r: Result<(u64, u64), ReserveError>)
        ensures
            (*final(self), r) == spec_reserve(*old(self)),
            final(self).reserved,
            !old(self).reserved ==> r == Result::<(u64, u64), ReserveError>::Ok(
                (SHADOW_ADDR, SHADOW_SIZE),
            ),
            old(self).reserved ==> r == Result::<(u64, u64), ReserveError>::Err(
                ReserveError::AddressInUse,
            ),
    {
        if self.reserved {
            Result::Err(ReserveError::AddressInUse)
        } else {
            self.reserved = true;
            Result::Ok((SHADOW_ADDR, SHADOW_SIZE))
        }
    }
}

/// Whether a failed mapping outcome must abort the process: a reservation
/// that cannot be satisfied is an unrecoverable precondition of the
/// isolation guarantee.
pub fn reservation_outcome(map_succeeded: bool) -> (abort: bool)
    ensures
        abort == !map_succeeded,
{
    !map_succeeded
}

/// Reservation exclusivity: from a fresh process state, the first
/// reservation attempt yields the fixed window, and a second attempt
/// without an intervening release is refused.
pub proof fn lemma_reservation_exclusivity(s: ShadowMemoryReservation)
    requires
        !s.reserved,
    ensures
        spec_reserve(s).1 == Result::<(u64, u64), ReserveError>::Ok((SHADOW_ADDR, SHADOW_SIZE)),
        spec_reserve(spec_reserve(s).0).1 == Result::<(u64, u64), ReserveError>::Err(
            ReserveError::AddressInUse,
        ),
{
}

} // verus!
