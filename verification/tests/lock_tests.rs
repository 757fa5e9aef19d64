use oxos::ismutex::ISMutex;
use oxos::machine::{are_interrupts_enabled, disable, enable, InterruptFlag};
use oxos::spinlock::SpinLock;

#[test]
fn interrupt_flag_discipline_composes() {
    let mut flag = InterruptFlag::new();
    assert!(!are_interrupts_enabled(&flag));
    enable(&mut flag, true);
    assert!(are_interrupts_enabled(&flag));
    let was_outer = disable(&mut flag);
    assert!(was_outer);
    assert!(!are_interrupts_enabled(&flag));
    // a nested disable sees interrupts already off
    let was_inner = disable(&mut flag);
    assert!(!was_inner);
    enable(&mut flag, was_inner);
    assert!(!are_interrupts_enabled(&flag));
    enable(&mut flag, was_outer);
    assert!(are_interrupts_enabled(&flag));
}

#[test]
fn spinlock_saves_and_restores_interrupts() {
    let mut flag = InterruptFlag::new();
    enable(&mut flag, true);
    let mut lock = SpinLock::new();
    assert!(!lock.taken);
    let was = lock.lock(&mut flag);
    assert!(lock.taken);
    assert!(was);
    assert!(!are_interrupts_enabled(&flag));
    lock.unlock(&mut flag, was);
    assert!(!lock.taken);
    assert!(are_interrupts_enabled(&flag));
}

#[test]
fn ismutex_guard_owns_the_data() {
    let mut flag = InterruptFlag::new();
    enable(&mut flag, true);
    let m = ISMutex::new(41u64);
    let mut guard = m.lock(&mut flag);
    assert!(!are_interrupts_enabled(&flag));
    guard.data += 1;
    let m = guard.release(&mut flag);
    assert!(are_interrupts_enabled(&flag));
    assert_eq!(m.data, 42);
}
