use oxos::machine::InterruptFlag;
use oxos::semaphore::Semaphore;
use oxos::thread::{
    schedule, stop, surrender, swap_active, thread_entry_point, BootstrapTCB, Scheduler, TCBImpl,
    TCBInfo, TaskHolder, Thread, Work, MAX_CORES,
};

fn active_tag(s: &Scheduler, core: usize) -> u64 {
    match &s.active[core] {
        Some(Thread::Worker(w)) => w.work.as_ref().map(|t| t.tag).unwrap_or(u64::MAX),
        Some(Thread::Bootstrap(_)) => u64::MAX - 1,
        None => u64::MAX,
    }
}

#[test]
fn adder_test() {
    // One hundred workers each add one to a counter when dispatched;
    // eventually the counter reaches one hundred.
    let mut s = Scheduler::new(0x1000);
    for i in 0..100u64 {
        schedule(&mut s, Thread::Worker(TCBImpl::new(Work { tag: i }, 0x1000)));
    }
    assert_eq!(s.ready.len(), 100);
    let mut counter: u32 = 0;
    for _ in 0..100 {
        // retire the current thread; the next ready worker takes the core
        stop(&mut s, 0);
        // the fresh worker starts at the entry point and hands out its work
        let work = thread_entry_point(&mut s, 0);
        assert!(work.tag < 100);
        counter += 1;
    }
    assert_eq!(counter, 100);
}

#[test]
fn cooperative_yield_round_robin() {
    // Ten threads each get the core ten times: the shared FIFO ready queue
    // rotates them fairly under surrender.
    let mut s = Scheduler::new(0);
    for i in 0..10u64 {
        schedule(&mut s, Thread::Worker(TCBImpl::new(Work { tag: i }, 0)));
    }
    // retire the bootstrap thread; worker 0 becomes active
    stop(&mut s, 0);
    let mut runs = [0u32; 10];
    for _ in 0..100 {
        let tag = active_tag(&s, 0) as usize;
        assert!(tag < 10);
        runs[tag] += 1;
        surrender(&mut s, 0);
    }
    for t in 0..10 {
        assert_eq!(runs[t], 10);
    }
}

#[test]
fn surrender_requeues_and_activates_head() {
    let mut s = Scheduler::new(0);
    schedule(&mut s, Thread::Worker(TCBImpl::new(Work { tag: 7 }, 0)));
    schedule(&mut s, Thread::Worker(TCBImpl::new(Work { tag: 8 }, 0)));
    stop(&mut s, 0);
    assert_eq!(active_tag(&s, 0), 7);
    assert_eq!(s.ready.len(), 1);
    surrender(&mut s, 0);
    // 7 went to the tail, 8 took the core
    assert_eq!(active_tag(&s, 0), 8);
    assert_eq!(s.ready.len(), 1);
    // every cleanup queue is drained at the quiescent point
    for i in 0..MAX_CORES {
        assert_eq!(s.cleanup[i].tasks.len(), 0);
    }
}

#[test]
fn surrender_with_no_active_thread_returns_silently() {
    let mut s = Scheduler::new(0);
    let prior = swap_active(&mut s, 3, None);
    assert!(prior.is_some());
    let ready_before = s.ready.len();
    surrender(&mut s, 3);
    assert_eq!(s.ready.len(), ready_before);
    assert!(s.active[3].is_none());
}

#[test]
fn stop_on_empty_ready_queue_synthesizes_idle() {
    let mut s = Scheduler::new(0x42);
    stop(&mut s, 0);
    match &s.active[0] {
        Some(Thread::Worker(w)) => {
            assert_eq!(w.work.as_ref().unwrap().tag, 0);
            assert_eq!(w.stack.len(), 4096);
            assert_eq!(w.stack[4095], 0x42);
        },
        _ => panic!("expected a synthesized idle worker"),
    }
}

#[test]
fn worker_stack_layout() {
    let t = TCBImpl::new(Work { tag: 9 }, 0xCAFE);
    assert_eq!(t.stack.len(), 4096);
    assert_eq!(t.stack[4095], 0xCAFE);
    for i in 4087..4095 {
        assert_eq!(t.stack[i], 0);
    }
    assert_eq!(t.tcb_info.stack_pointer, 4087 * 8);
    assert!(t.work.is_some());
}

#[test]
fn bootstrap_tcb_has_no_stack_frame() {
    let b = BootstrapTCB::new();
    assert!(b.stack_frame_start.is_none());
    assert_eq!(b.tcb_info.stack_pointer, 0);
    let boxed = BootstrapTCB::new_box();
    assert!(boxed.stack_frame_start.is_none());
}

#[test]
fn task_holder_is_fifo() {
    let mut h = TaskHolder::new();
    assert!(h.get_task().is_none());
    h.add_task(oxos::thread::CleanupTask::DropAndForget(Thread::Bootstrap(BootstrapTCB::new())));
    h.add_task(oxos::thread::CleanupTask::ReturnToReady(Thread::Bootstrap(BootstrapTCB::new())));
    match h.get_task() {
        Some(oxos::thread::CleanupTask::DropAndForget(_)) => {},
        _ => panic!("expected the first task enqueued"),
    }
    match h.get_task() {
        Some(oxos::thread::CleanupTask::ReturnToReady(_)) => {},
        _ => panic!("expected the second task enqueued"),
    }
    assert!(h.get_task().is_none());
}

#[test]
fn tcb_info_keeps_stack_pointer() {
    let info = TCBInfo::new(12345);
    assert_eq!(info.stack_pointer, 12345);
}

#[test]
fn semaphore_up_down_counts() {
    // new(1), up, down, down: ends at zero with nobody blocked.
    let mut s = Scheduler::new(0);
    let mut flag = InterruptFlag::new();
    let mut sem = Semaphore::new(1);
    sem.up(&mut s, &mut flag);
    assert_eq!(sem.internals.data.count, 2);
    sem.down(&mut s, 0, &mut flag);
    sem.down(&mut s, 0, &mut flag);
    assert_eq!(sem.internals.data.count, 0);
    assert_eq!(sem.internals.data.blocked.len(), 0);
}

#[test]
fn semaphore_blocked_wakeup_is_fifo() {
    // A blocks, then B blocks; two ups wake A before B.
    let mut s = Scheduler::new(0);
    let mut flag = InterruptFlag::new();
    let mut sem = Semaphore::new(0);
    schedule(&mut s, Thread::Worker(TCBImpl::new(Work { tag: 100 }, 0)));
    schedule(&mut s, Thread::Worker(TCBImpl::new(Work { tag: 200 }, 0)));
    stop(&mut s, 0);
    assert_eq!(active_tag(&s, 0), 100);
    // thread A (tag 100) blocks; B takes the core
    sem.down(&mut s, 0, &mut flag);
    assert_eq!(sem.internals.data.blocked.len(), 1);
    assert_eq!(active_tag(&s, 0), 200);
    // thread B blocks too; an idle worker takes the core
    sem.down(&mut s, 0, &mut flag);
    assert_eq!(sem.internals.data.blocked.len(), 2);
    // first up wakes A — the thread that blocked first
    sem.up(&mut s, &mut flag);
    assert_eq!(sem.internals.data.blocked.len(), 1);
    match s.ready.last() {
        Some(Thread::Worker(w)) => assert_eq!(w.work.as_ref().unwrap().tag, 100),
        _ => panic!("expected the first blocked worker on the ready queue"),
    }
    // second up wakes B
    sem.up(&mut s, &mut flag);
    assert_eq!(sem.internals.data.blocked.len(), 0);
    match s.ready.last() {
        Some(Thread::Worker(w)) => assert_eq!(w.work.as_ref().unwrap().tag, 200),
        _ => panic!("expected the second blocked worker on the ready queue"),
    }
    assert_eq!(sem.internals.data.count, 0);
}

#[test]
fn semaphore_count_law_on_interleavings() {
    // Any interleaving of ups and downs that ends with nobody blocked ends
    // with count == init + ups - downs.
    let mut s = Scheduler::new(0);
    let mut flag = InterruptFlag::new();
    let mut sem = Semaphore::new(5);
    let mut ups: i64 = 0;
    let mut downs: i64 = 0;
    // a fixed interleaving: d d u d u u d d u u
    let pattern = [false, false, true, false, true, true, false, false, true, true];
    for &is_up in pattern.iter() {
        if is_up {
            sem.up(&mut s, &mut flag);
            ups += 1;
        } else {
            sem.down(&mut s, 0, &mut flag);
            downs += 1;
        }
    }
    assert_eq!(sem.internals.data.blocked.len(), 0);
    assert_eq!(sem.internals.data.count as i64, 5 + ups - downs);
}

#[test]
fn semaphore_mutual_exclusion_counter() {
    // A semaphore at one serializes increments of a plain counter: a
    // sequential schedule of down/increment/up round trips.
    let mut s = Scheduler::new(0);
    let mut flag = InterruptFlag::new();
    let mut sem = Semaphore::new(1);
    let mut counter: u64 = 0;
    for _ in 0..1000u32 {
        for _ in 0..1000u32 {
            sem.down(&mut s, 0, &mut flag);
            counter += 1;
            sem.up(&mut s, &mut flag);
        }
    }
    assert_eq!(counter, 1_000_000);
    assert_eq!(sem.internals.data.count, 1);
}

#[test]
fn producer_consumer_ring_buffer() {
    // Two semaphores (empty = N, full = 0) around a ring of N slots:
    // every produced value is consumed exactly once, in order.
    const N: usize = 4;
    let mut s = Scheduler::new(0);
    let mut flag = InterruptFlag::new();
    let mut empty = Semaphore::new(N as u64);
    let mut full = Semaphore::new(0);
    let mut ring = [0u64; N];
    let mut head: usize = 0;
    let mut tail: usize = 0;
    let mut produced: u64 = 0;
    let mut consumed: Vec<u64> = Vec::new();
    let total: u64 = 10_000;
    while (consumed.len() as u64) < total {
        // produce while there is room and something left to produce
        while produced < total && empty.internals.data.count > 0 {
            empty.down(&mut s, 0, &mut flag);
            ring[head % N] = produced;
            head += 1;
            produced += 1;
            full.up(&mut s, &mut flag);
        }
        // consume everything available
        while full.internals.data.count > 0 {
            full.down(&mut s, 0, &mut flag);
            consumed.push(ring[tail % N]);
            tail += 1;
            empty.up(&mut s, &mut flag);
        }
    }
    assert_eq!(consumed.len() as u64, total);
    for (i, v) in consumed.iter().enumerate() {
        assert_eq!(*v, i as u64);
    }
    assert_eq!(empty.internals.data.count, N as u64);
    assert_eq!(full.internals.data.count, 0);
}
