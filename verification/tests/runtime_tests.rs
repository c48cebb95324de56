use metasafe::domain::ProtectionDomain;
use metasafe::shadow::{
    reservation_outcome, ReserveError, ShadowMemoryReservation, SHADOW_ADDR, SHADOW_SIZE,
};
use metasafe::stack::{
    init_stack, StackState, DEFAULT_STACK, DEFAULT_STACK_GUARD, PAGE_SIZE, POINTER_BYTES,
};
use metasafe::wrapper::{begin_isolated, finish_isolated, Outcome};

#[test]
fn domain_restored_after_normal_return() {
    let mut domain = ProtectionDomain::new_enabled();
    let pkru = begin_isolated(&mut domain);
    assert_eq!(pkru, 0); // key zero: the disable value is 2 * 0
    assert!(!domain.enabled);
    let (pkru, reraise) = finish_isolated(&mut domain, Outcome::Normal);
    assert_eq!(pkru, 0);
    assert!(domain.enabled);
    assert!(!reraise);
}

#[test]
fn domain_restored_under_fault() {
    // The wrapped work terminates abnormally: the domain must be back in
    // the enabled state, and only then is the termination re-raised.
    let mut domain = ProtectionDomain::new_enabled();
    begin_isolated(&mut domain);
    assert!(!domain.enabled);
    let (_pkru, reraise) = finish_isolated(&mut domain, Outcome::Abnormal);
    assert!(domain.enabled);
    assert!(reraise);
}

#[test]
fn fresh_stack_has_default_size_and_guard() {
    // Preferred placement honoured: the stack sits at the top of the
    // reserved span, leaving a non-zero guard region below it.
    let start: u64 = 0x7000_0000_0000;
    let mapped = start + DEFAULT_STACK_GUARD;
    let s = init_stack(start, mapped);
    assert_eq!(s.current_stack, start + DEFAULT_STACK_GUARD + DEFAULT_STACK - POINTER_BYTES);
    assert_eq!(s.current_stack - s.limit, DEFAULT_STACK - POINTER_BYTES);
    assert_eq!(s.limit - start, DEFAULT_STACK_GUARD);
    assert!(DEFAULT_STACK_GUARD > 0);
}

#[test]
fn fresh_stack_with_provider_chosen_address() {
    let start: u64 = 0x7000_0000_0000;
    let mapped: u64 = 0x6f00_0000_0000;
    let s = init_stack(start, mapped);
    assert_eq!(s.current_stack, mapped + DEFAULT_STACK - POINTER_BYTES);
    assert_eq!(s.limit, mapped);
}

#[test]
fn growth_moves_limit_by_whole_pages() {
    // No slack at all: a request of 3 pages plus one byte moves the limit
    // down by exactly 4 pages, one touch per page.
    let mut s = StackState { limit: 0x5000_0000, current_stack: 0x5000_0000 };
    let touched = s.grow(0x5000_0000, 3 * PAGE_SIZE + 1);
    assert_eq!(s.limit, 0x5000_0000 - 4 * PAGE_SIZE);
    assert_eq!(touched.len(), 4);
    assert_eq!(touched[0], 0x5000_0000);
    assert_eq!(touched[3], 0x5000_0000 - 3 * PAGE_SIZE);
}

#[test]
fn growth_is_idempotent_within_slack() {
    let top: u64 = 0x5000_0000;
    let mut s = StackState { limit: top, current_stack: top };
    s.grow(top, 8 * PAGE_SIZE);
    let limit_after_first = s.limit;
    assert_eq!(limit_after_first, top - 8 * PAGE_SIZE);
    // A second request within the slack just created performs no growth.
    let touched = s.grow(top, 8 * PAGE_SIZE);
    assert_eq!(s.limit, limit_after_first);
    assert!(touched.is_empty());
    let touched = s.grow(top, 2 * PAGE_SIZE);
    assert_eq!(s.limit, limit_after_first);
    assert!(touched.is_empty());
}

#[test]
fn growth_tops_up_partial_slack() {
    // One page of slack, two pages requested: the limit moves down by one
    // page only.
    let top: u64 = 0x5000_0000;
    let mut s = StackState { limit: top - PAGE_SIZE, current_stack: top };
    let touched = s.grow(top, 2 * PAGE_SIZE);
    assert_eq!(s.limit, top - 2 * PAGE_SIZE);
    assert_eq!(touched.len(), 1);
    assert_eq!(touched[0], top - PAGE_SIZE);
}

#[test]
fn zero_byte_request_grows_nothing() {
    let top: u64 = 0x5000_0000;
    let mut s = StackState { limit: top, current_stack: top };
    let touched = s.grow(top, 0);
    assert_eq!(s.limit, top);
    assert!(touched.is_empty());
}

#[test]
fn reservation_exclusivity() {
    let mut shadow = ShadowMemoryReservation::new();
    assert_eq!(shadow.plan_reservation(), Ok((SHADOW_ADDR, SHADOW_SIZE)));
    // A second attempt at the same fixed address without an intervening
    // release fails.
    assert_eq!(shadow.plan_reservation(), Err(ReserveError::AddressInUse));
    assert_eq!(shadow.plan_reservation(), Err(ReserveError::AddressInUse));
}

#[test]
fn shadow_window_constants() {
    assert_eq!(SHADOW_ADDR, 0x5100_0000_0000);
    assert_eq!(SHADOW_SIZE, 0x200_0000_0000);
}

#[test]
fn failed_mapping_aborts() {
    assert!(reservation_outcome(false));
    assert!(!reservation_outcome(true));
}

#[test]
fn marker_calls_are_callable() {
    metasafe::__trust_mark_unsafe_start();
    metasafe::__trust_mark_unsafe_end();
}

#[test]
fn metaupdate_is_implementable() {
    struct Counter {
        hits: std::cell::Cell<usize>,
    }
    impl metasafe::MetaUpdate for Counter {
        fn synchronize(&self) {
            self.hits.set(self.hits.get() + 1);
        }
    }
    let c = Counter { hits: std::cell::Cell::new(0) };
    metasafe::MetaUpdate::synchronize(&c);
    assert_eq!(c.hits.get(), 1);
}
