//! The per-thread isolated execution stack: lazily created, downward
//! growable in page-sized steps, with a guard region below it.
//!
//! The state here is the bookkeeping a thread keeps about its stack — the
//! current low-water limit and the recorded stack-top handle.  The actual
//! mappings and page touches are performed by the host runtime, which this
//! module tells exactly which addresses to use.

use vstd::prelude::*;

verus! {

/// Size of one page.
pub const PAGE_SIZE: u64 = 0x1000;

/// Initial committed size of a fresh isolated stack.
pub const DEFAULT_STACK: u64 = 1024 * 1024;

/// Size of the guard region reserved below a fresh stack.
pub const DEFAULT_STACK_GUARD: u64 = 1024 * 1024;

/// Bytes of one machine word; the stack top keeps one word for the saved
/// stack-pointer slot.
pub const POINTER_BYTES: u64 = 8;

/// The least usable slack an isolated call requires before the wrapped
/// work starts running on the stack.
pub const ISOLATED_CALL_MIN_STACK: u64 = 8 * 0x1000;

/// Per-thread stack bookkeeping: the current low-water limit and the
/// recorded stack-top handle.  A fresh thread starts with both at zero;
/// the stack is created on first use.
#[derive(Clone, Copy, PartialEq, Eq, Structural, Debug)]
pub struct StackState {
    pub limit: u64,
    pub current_stack: u64,
}

/// `bytes` rounded up to a whole number of pages.
pub open spec fn round_up_pages(bytes: int) -> int {
    ((bytes + PAGE_SIZE - 1) / (PAGE_SIZE as int)) * (PAGE_SIZE as int)
}

/// Where the limit stands after guaranteeing `bytes` of usable stack: it
/// is unchanged when the present slack already covers the rounded request,
/// and otherwise moves down by whole pages until the slack does.
pub open spec fn grow_target(limit: int, stack_ptr: int, bytes: int) -> int {
    let rounded = round_up_pages(bytes);
    let slack = stack_ptr - limit;
    if slack >= rounded {
        limit
    } else {
        limit - round_up_pages(rounded - slack)
    }
}

impl StackState {
    /// The stack exists once a stack-top handle has been recorded.
    pub open spec fn initialized(self) -> bool {
        self.current_stack != 0
    }

    /// The state of a thread that has not used its isolated stack yet.
    pub fn fresh() -> (s: StackState)
        ensures
            s.limit == 0,
            s.current_stack == 0,
            !s.initialized(),
    {
        StackState { limit: 0, current_stack: 0 }
    }

    pub fn get_stack_limit(&self) -> (r: u64)
        ensures
            r == self.limit,
    {
        self.limit
    }

    pub fn get_current_stack(&self) -> (r: u64)
        ensures
            r == self.current_stack,
    {
        self.current_stack
    }

    pub fn set_stack_limit(&mut self, new_limit: u64)
        ensures
            final(self).limit == new_limit,
            final(self).current_stack == old(self).current_stack,
    {
        self.limit = new_limit;
    }

    pub fn set_stack_ptr(&mut self, stack_ptr: u64)
        ensures
            final(self).current_stack == stack_ptr,
            final(self).limit == old(self).limit,
    {
        self.current_stack = stack_ptr;
    }

    /// Moves the limit down, page by page, until at least `bytes` of
    /// usable stack lie between the recorded stack pointer and the limit.
    /// Returns the successive limit addresses whose pages the host runtime
    /// must touch, top first, to make the growable mapping extend.
    /// Repeated requests within existing slack perform no growth.
    pub fn grow(&mut self, stack_ptr: u64, bytes: u64) -> (touched: Vec<u64>)
        requires
            old(self).initialized(),
            old(self).limit <= stack_ptr,
            bytes + PAGE_SIZE <= u64::MAX,
            stack_ptr - old(self).limit >= round_up_pages(bytes as int) || round_up_pages(
                bytes as int,
            ) <= old(self).limit,
        ensures
            final(self).current_stack == old(self).current_stack,
            final(self).limit as int == grow_target(
                old(self).limit as int,
                stack_ptr as int,
                bytes as int,
            ),
            final(self).limit <= old(self).limit,
            stack_ptr - old(self).limit >= round_up_pages(bytes as int) ==> final(self).limit
                == old(self).limit && touched@.len() == 0,
            touched@.len() * PAGE_SIZE == old(self).limit - final(self).limit,
            forall|i: int|
                0 <= i < touched@.len() ==> #[trigger] touched@[i] == old(self).limit - i
                    * PAGE_SIZE,
    {
        let ghost limit0 = self.limit as int;
        let ghost slack0 = stack_ptr as int - limit0;
        let q = (bytes + PAGE_SIZE - 1) / PAGE_SIZE;
        let rounded = q * PAGE_SIZE;
        proof {
            assert(rounded == round_up_pages(bytes as int));
        }
        let mut touched: Vec<u64> = Vec::new();
        let mut size = stack_ptr - self.limit;
        let mut k: u64 = 0;
        if size >= rounded {
            proof {
                assert(grow_target(limit0, stack_ptr as int, bytes as int) == limit0);
            }
            return touched;
        }
        while size < rounded
            invariant
                self.current_stack == old(self).current_stack,
                rounded == q * PAGE_SIZE,
                rounded == round_up_pages(bytes as int),
                rounded <= limit0,
                limit0 == old(self).limit,
                slack0 == stack_ptr as int - limit0,
                slack0 >= 0,
                self.limit as int == limit0 - k * PAGE_SIZE,
                size as int == slack0 + k * PAGE_SIZE,
                k > 0 ==> slack0 + (k - 1) * PAGE_SIZE < rounded,
                k * PAGE_SIZE <= rounded,
                touched@.len() == k,
                forall|i: int|
                    0 <= i < touched@.len() ==> #[trigger] touched@[i] == limit0 - i * PAGE_SIZE,
            decreases q - k,
        {
            proof {
                assert(k < q);
            }
            touched.push(self.limit);
            self.limit = self.limit - PAGE_SIZE;
            size = size + PAGE_SIZE;
            k = k + 1;
        }
        proof {
            // The loop stopped at the least whole-page top-up of the
            // deficit, which is exactly what the growth target rounds to.
            let x = rounded - slack0;
            let p = PAGE_SIZE as int;
            let d = (x + p - 1) / p;
            assert((x + p - 1) == p * d + (x + p - 1) % p) by {
                vstd::arithmetic::div_mod::lemma_fundamental_div_mod(x + p - 1, p);
            }
            assert(x <= d * p < x + p);
            assert(x <= k * PAGE_SIZE < x + p);
            assert(k == d);
            assert(round_up_pages(x) == k * PAGE_SIZE);
        }
        touched
    }
}

/// Growth is idempotent: a request already covered by the present slack
/// leaves the limit where it stands.
pub proof fn lemma_growth_idempotent(limit: int, stack_ptr: int, bytes: int)
    requires
        stack_ptr - limit >= round_up_pages(bytes),
    ensures
        grow_target(limit, stack_ptr, bytes) == limit,
{
}

/// When the present slack is less than one page, a growth request moves
/// the limit down by exactly `bytes` rounded up to whole pages.
pub proof fn lemma_growth_exact_pages(limit: int, stack_ptr: int, bytes: int)
    requires
        limit <= stack_ptr,
        stack_ptr - limit < PAGE_SIZE,
        bytes >= 0,
    ensures
        limit - grow_target(limit, stack_ptr, bytes) == if stack_ptr - limit
            >= round_up_pages(bytes) {
            0int
        } else {
            round_up_pages(bytes)
        },
{
    let p = PAGE_SIZE as int;
    let slack = stack_ptr - limit;
    let rounded = round_up_pages(bytes);
    assert(rounded == ((bytes + p - 1) / p) * p);
    assert(bytes + p - 1 == p * ((bytes + p - 1) / p) + (bytes + p - 1) % p) by {
        vstd::arithmetic::div_mod::lemma_fundamental_div_mod(bytes + p - 1, p);
    }
    if slack < rounded {
        let x = rounded - slack;
        assert(x + p - 1 == p * ((x + p - 1) / p) + (x + p - 1) % p) by {
            vstd::arithmetic::div_mod::lemma_fundamental_div_mod(x + p - 1, p);
        }
        let q = rounded / p;
        assert(rounded == p * q + rounded % p) by {
            vstd::arithmetic::div_mod::lemma_fundamental_div_mod(rounded, p);
        }
        assert(rounded % p == 0);
        assert(x <= ((x + p - 1) / p) * p < x + p);
        assert(round_up_pages(x) == rounded);
    }
}

/// Creates the bookkeeping for a freshly mapped stack.  `start` is the
/// base of the reserved guard-plus-stack span; `mapped` is where the
/// provider actually committed the stack portion, which is the span's top
/// part when the preferred placement was honoured.  The recorded stack top
/// keeps one word for the saved stack-pointer slot, and the limit starts
/// one default stack below it.
pub fn init_stack(start: u64, mapped: u64) -> (s: StackState)
    requires
        start + DEFAULT_STACK_GUARD + DEFAULT_STACK <= u64::MAX,
        mapped + DEFAULT_STACK <= u64::MAX,
        mapped >= POINTER_BYTES,
    ensures
        s.initialized(),
        mapped == start + DEFAULT_STACK_GUARD ==> s.current_stack == start + DEFAULT_STACK_GUARD
            + DEFAULT_STACK - POINTER_BYTES,
        mapped != start + DEFAULT_STACK_GUARD ==> s.current_stack == mapped + DEFAULT_STACK
            - POINTER_BYTES,
        s.limit == s.current_stack - DEFAULT_STACK + POINTER_BYTES,
        s.current_stack - s.limit == DEFAULT_STACK - POINTER_BYTES,
{
    let reserved = DEFAULT_STACK_GUARD + DEFAULT_STACK;
    let preferred = start + reserved - DEFAULT_STACK;
    let stack_top: u64 = if mapped != preferred {
        mapped + DEFAULT_STACK - POINTER_BYTES
    } else {
        start + reserved - POINTER_BYTES
    };
    let stack_bottom = stack_top - DEFAULT_STACK + POINTER_BYTES;
    StackState { limit: stack_bottom, current_stack: stack_top }
}

} // verus!
