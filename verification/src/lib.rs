//! Core of a small SMP kernel for 64-bit x86 machines, modelled as verified
//! data structures and state machines: physical-frame and heap allocation,
//! four-level identity paging, per-core scheduling with deferred cleanup
//! tasks, and counting semaphores built on the scheduler.
//!
//! Everything that touches hardware (port I/O, model-specific registers,
//! the actual context-switch stub) lives outside this crate; the functions
//! here compute the values those mechanisms consume and keep the records
//! those mechanisms trust.

pub mod apic;
pub mod config;
pub mod heap;
pub mod ide;
pub mod idt;
pub mod ismutex;
pub mod machine;
pub mod pci;
pub mod semaphore;
pub mod sfs;
pub mod smp;
pub mod spinlock;
pub mod thread;
pub mod timer;
pub mod u8250;
pub mod vmm;

use vstd::prelude::*;

verus! {

/// Number of `u64` words in a per-core boot stack.
pub const BOOT_STACK_WORDS: usize = 2048;

/// Number of `u64` words in a small boxed stack.
pub const BOXED_STACK_WORDS: usize = 512;

/// Builds a vector of `n` zeroed words.
pub fn zeroed_words(n: usize) -> (r: Vec<u64>)
    ensures
        r@.len() == n,
        forall|i: int| 0 <= i < n ==> r@[i] == 0u64,
{
    let mut r: Vec<u64> = Vec::new();
    let mut i: usize = 0;
    while i < n
        invariant
            i <= n,
            r@.len() == i,
            forall|j: int| 0 <= j < i ==> r@[j] == 0u64,
        decreases n - i,
    {
        r.push(0u64);
        i = i + 1;
    }
    r
}

/// Builds a vector of `n` zeroed bytes.
pub fn zeroed_bytes(n: usize) -> (r: Vec<u8>)
    ensures
        r@.len() == n,
        forall|i: int| 0 <= i < n ==> r@[i] == 0u8,
{
    let mut r: Vec<u8> = Vec::new();
    let mut i: usize = 0;
    while i < n
        invariant
            i <= n,
            r@.len() == i,
            forall|j: int| 0 <= j < i ==> r@[j] == 0u8,
        decreases n - i,
    {
        r.push(0u8);
        i = i + 1;
    }
    r
}

/// Builds a vector of `n` zeroed 32-bit words.
pub fn zeroed_words_u32(n: usize) -> (r: Vec<u32>)
    ensures
        r@.len() == n,
        forall|i: int| 0 <= i < n ==> r@[i] == 0u32,
{
    let mut r: Vec<u32> = Vec::new();
    let mut i: usize = 0;
    while i < n
        invariant
            i <= n,
            r@.len() == i,
            forall|j: int| 0 <= j < i ==> r@[j] == 0u32,
        decreases n - i,
    {
        r.push(0u32);
        i = i + 1;
    }
    r
}

/// A page-aligned kernel boot stack: one fixed buffer per core.
pub struct Stack {
    pub stack: Vec<u64>,
}

impl Stack {
    /// A fresh boot stack is fully zeroed.
    pub fn new() -> (r: Stack)
        ensures
            r.stack@.len() == BOOT_STACK_WORDS,
            forall|i: int| 0 <= i < BOOT_STACK_WORDS ==> r.stack@[i] == 0u64,
    {
        Stack { stack: zeroed_words(BOOT_STACK_WORDS) }
    }

    /// A fresh boot stack on the heap.
    pub fn boxed_new() -> (r: Box<Stack>)
        ensures
            r.stack@.len() == BOOT_STACK_WORDS,
            forall|i: int| 0 <= i < BOOT_STACK_WORDS ==> r.stack@[i] == 0u64,
    {
        Box::new(Stack::new())
    }
}

/// A heap-allocated stack buffer that can be handed over to a new core.
pub struct BoxedStack {
    pub stack: Option<Vec<u64>>,
}

impl BoxedStack {
    /// A fresh boxed stack is present and fully zeroed.
    pub fn new() -> (r: BoxedStack)
        ensures
            r.stack is Some,
            r.stack->Some_0@.len() == BOXED_STACK_WORDS,
            forall|i: int| 0 <= i < BOXED_STACK_WORDS ==> r.stack->Some_0@[i] == 0u64,
    {
        BoxedStack { stack: Some(zeroed_words(BOXED_STACK_WORDS)) }
    }
}

} // verus!
