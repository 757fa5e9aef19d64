//! Counting semaphores, built on the scheduler's blocked-thread hand-off.
//!
//! `up` wakes the longest-blocked waiter, or increments the count when
//! nobody waits. `down` decrements the count, or blocks the calling thread:
//! it parks the thread on the semaphore's FIFO blocked queue and switches
//! the core to the next ready thread, exactly as `stop` does, except that
//! the thread is parked instead of dropped. The blocked queue is FIFO, so
//! wake-up order equals block order.

use vstd::prelude::*;

use crate::machine::InterruptFlag;
use crate::spinlock::SpinLock;
use crate::thread::{
    apply_tasks, cleanup, is_idle_worker, lemma_count_active_update, lemma_count_concat,
    lemma_count_holders_pointwise, lemma_count_push, lemma_count_remove0, sched_inv, swap_active,
    tid, total_count, CleanupTask, Scheduler, TCBImpl, TaskHolder, Thread, Work, MAX_CORES,
};

verus! {

/// The state guarded by the semaphore's spinlock: the count and the FIFO of
/// blocked threads. The count is zero whenever a thread is blocked.
pub struct SemaphoreInternals {
    pub count: u64,
    pub blocked: Vec<Thread>,
}

impl SemaphoreInternals {
    pub fn new(count: u64) -> (r: SemaphoreInternals)
        ensures
            r.count == count,
            r.blocked@.len() == 0,
    {
        SemaphoreInternals { count, blocked: Vec::new() }
    }
}

/// Wrapper marking that the internals are only reached under the control
/// lock.
pub struct SemaphoreInternalWrapper {
    pub data: SemaphoreInternals,
}

impl SemaphoreInternalWrapper {
    pub fn new(count: u64) -> (r: SemaphoreInternalWrapper)
        ensures
            r.data.count == count,
            r.data.blocked@.len() == 0,
    {
        SemaphoreInternalWrapper { data: SemaphoreInternals::new(count) }
    }
}

/// A universal synchronization primitive. `down` blocks when the count is
/// zero.
pub struct Semaphore {
    pub control: SpinLock,
    pub internals: SemaphoreInternalWrapper,
}

// ------------------------------------------------------------------
// The abstract count law.
// ------------------------------------------------------------------

/// One semaphore operation, seen abstractly.
pub enum SemOp {
    Up,
    Down,
}

/// Effect of one operation on (count, number of blocked threads): exactly
/// the transitions `up` and `down` make on those two quantities.
pub open spec fn sem_step(count: nat, blocked: nat, op: SemOp) -> (nat, nat) {
    match op {
        SemOp::Up => if blocked > 0 {
            (count, (blocked - 1) as nat)
        } else {
            (count + 1, blocked)
        },
        SemOp::Down => if count > 0 {
            ((count - 1) as nat, blocked)
        } else {
            (count, blocked + 1)
        },
    }
}

/// Effect of a finite interleaving of operations.
pub open spec fn sem_run(count: nat, blocked: nat, ops: Seq<SemOp>) -> (nat, nat)
    decreases ops.len(),
{
    if ops.len() == 0 {
        (count, blocked)
    } else {
        let st = sem_step(count, blocked, ops[0]);
        sem_run(st.0, st.1, ops.drop_first())
    }
}

pub open spec fn count_ups(ops: Seq<SemOp>) -> int
    decreases ops.len(),
{
    if ops.len() == 0 {
        0
    } else {
        (if ops[0] is Up {
            1int
        } else {
            0int
        }) + count_ups(ops.drop_first())
    }
}

pub open spec fn count_downs(ops: Seq<SemOp>) -> int
    decreases ops.len(),
{
    if ops.len() == 0 {
        0
    } else {
        (if ops[0] is Down {
            1int
        } else {
            0int
        }) + count_downs(ops.drop_first())
    }
}

proof fn lemma_sem_run_balance(count: nat, blocked: nat, ops: Seq<SemOp>)
    ensures
        sem_run(count, blocked, ops).0 - sem_run(count, blocked, ops).1 == count - blocked
            + count_ups(ops) - count_downs(ops),
    decreases ops.len(),
{
    if ops.len() > 0 {
        let st = sem_step(count, blocked, ops[0]);
        lemma_sem_run_balance(st.0, st.1, ops.drop_first());
    }
}

/// Semaphore count law: any finite interleaving of N `up`s and M `down`s
/// that starts at `init` with nobody blocked and reaches a quiescent state
/// with no blocked waiters ends with `count == init + N - M`, and such an
/// interleaving satisfies `M <= init + N`.
pub proof fn lemma_semaphore_count_law(init: nat, ops: Seq<SemOp>)
    ensures
        sem_run(init, 0, ops).1 == 0 ==> sem_run(init, 0, ops).0 == init + count_ups(ops)
            - count_downs(ops) && count_downs(ops) <= init + count_ups(ops),
{
    lemma_sem_run_balance(init, 0, ops);
}

// ------------------------------------------------------------------
// The executable semaphore.
// ------------------------------------------------------------------

impl Semaphore {
    /// A new semaphore with the given initial count and no blocked threads.
    pub fn new(count: u64) -> (r: Semaphore)
        ensures
            !r.control.taken,
            r.internals.data.count == count,
            r.internals.data.blocked@.len() == 0,
    {
        Semaphore { control: SpinLock::new(), internals: SemaphoreInternalWrapper::new(count) }
    }

    /// Wakes the longest-blocked thread by moving it to the shared ready
    /// queue, or increments the count when nobody is blocked. The head of
    /// the blocked FIFO — the thread that blocked first — is the one woken.
    pub fn up(&mut self, s: &mut Scheduler, flag: &mut InterruptFlag)
        requires
            !old(self).control.taken,
            old(self).internals.data.count < u64::MAX,
        ensures
            !final(self).control.taken,
            final(flag).enabled == old(flag).enabled,
            final(s).active == old(s).active,
            final(s).cleanup == old(s).cleanup,
            final(s).next_id == old(s).next_id,
            final(s).entry_point == old(s).entry_point,
            (final(self).internals.data.count as nat, final(self).internals.data.blocked@.len())
                == sem_step(
                old(self).internals.data.count as nat,
                old(self).internals.data.blocked@.len(),
                SemOp::Up,
            ),
            old(self).internals.data.blocked@.len() > 0 ==> {
                &&& final(self).internals.data.blocked@ == old(
                    self,
                ).internals.data.blocked@.drop_first()
                &&& final(s).ready@ == old(s).ready@.push(old(self).internals.data.blocked@[0])
                &&& final(self).internals.data.count == old(self).internals.data.count
            },
            old(self).internals.data.blocked@.len() == 0 ==> {
                &&& final(self).internals.data.blocked@ == old(self).internals.data.blocked@
                &&& final(s).ready@ == old(s).ready@
                &&& final(self).internals.data.count == old(self).internals.data.count + 1
            },
            forall|parked: Seq<Thread>|
                sched_inv(*old(s), old(self).internals.data.blocked@ + parked)
                    ==> #[trigger] sched_inv(*final(s), final(self).internals.data.blocked@ + parked),
    {
        let ghost o = *old(s);
        let ghost ob = self.internals.data.blocked@;
        let was = self.control.lock(flag);
        if self.internals.data.blocked.len() > 0 {
            let woken = self.internals.data.blocked.remove(0);
            let ghost woken_g = woken;
            s.ready.push(woken);
            proof {
                assert(self.internals.data.blocked@ =~= ob.drop_first());
                assert forall|parked: Seq<Thread>|
                    sched_inv(o, ob + parked) implies #[trigger] sched_inv(
                    *s,
                    self.internals.data.blocked@ + parked,
                ) by {
                    let nb = self.internals.data.blocked@;
                    assert forall|x: int| #[trigger] total_count(*s, nb + parked, x)
                        == total_count(o, ob + parked, x) by {
                        lemma_count_concat(ob, parked, x);
                        lemma_count_concat(nb, parked, x);
                        lemma_count_remove0(ob, x);
                        lemma_count_push(o.ready@, woken_g, x);
                    }
                }
            }
        } else {
            self.internals.data.count = self.internals.data.count + 1;
            proof {
                assert forall|parked: Seq<Thread>|
                    sched_inv(o, ob + parked) implies #[trigger] sched_inv(
                    *s,
                    self.internals.data.blocked@ + parked,
                ) by {}
            }
        }
        self.control.unlock(flag, was);
    }

    /// Decrements the count, or blocks: the calling thread is parked at the
    /// tail of the blocked FIFO only as part of the hand-off to the next
    /// thread, and the core switches to the head of the ready queue (or to
    /// a fresh idle worker when nothing is ready).
    pub fn down(&mut self, s: &mut Scheduler, me: usize, flag: &mut InterruptFlag)
        requires
            !old(self).control.taken,
            me < MAX_CORES,
            old(s).active@.len() == MAX_CORES,
            old(s).cleanup@.len() == MAX_CORES,
            old(s).cleanup@[me as int].tasks@.len() == 0,
            old(s).active@[me as int] is Some,
        ensures
            !final(self).control.taken,
            final(flag).enabled == old(flag).enabled,
            (final(self).internals.data.count as nat, final(self).internals.data.blocked@.len())
                == sem_step(
                old(self).internals.data.count as nat,
                old(self).internals.data.blocked@.len(),
                SemOp::Down,
            ),
            final(s).active@.len() == MAX_CORES,
            final(s).cleanup@.len() == MAX_CORES,
            forall|j: int|
                0 <= j < MAX_CORES ==> #[trigger] final(s).cleanup@[j].tasks@ == old(
                    s,
                ).cleanup@[j].tasks@,
            final(s).entry_point == old(s).entry_point,
            old(self).internals.data.count > 0 ==> {
                &&& final(self).internals.data.count == old(self).internals.data.count - 1
                &&& final(self).internals.data.blocked@ == old(self).internals.data.blocked@
                &&& final(s).ready@ == old(s).ready@
                &&& final(s).active@ == old(s).active@
                &&& final(s).next_id@ == old(s).next_id@
            },
            old(self).internals.data.count == 0 ==> {
                &&& final(self).internals.data.count == 0
                &&& final(self).internals.data.blocked@ == old(self).internals.data.blocked@.push(
                    old(s).active@[me as int]->Some_0,
                )
                &&& if old(s).ready@.len() > 0 {
                    &&& final(s).next_id@ == old(s).next_id@
                    &&& final(s).active@ == old(s).active@.update(
                        me as int,
                        Some(old(s).ready@[0]),
                    )
                    &&& final(s).ready@ == old(s).ready@.drop_first()
                } else {
                    &&& final(s).next_id@ == old(s).next_id@ + 1
                    &&& (match final(s).active@[me as int] {
                        Some(t) => is_idle_worker(t, old(s).entry_point) && tid(t) == old(
                            s,
                        ).next_id@,
                        None => false,
                    })
                    &&& final(s).active@ == old(s).active@.update(
                        me as int,
                        final(s).active@[me as int],
                    )
                    &&& final(s).ready@ == old(s).ready@
                }
            },
            forall|parked: Seq<Thread>|
                sched_inv(*old(s), old(self).internals.data.blocked@ + parked)
                    ==> #[trigger] sched_inv(*final(s), final(self).internals.data.blocked@ + parked),
    {
        let ghost o = *old(s);
        let ghost ob = self.internals.data.blocked@;
        let was = self.control.lock(flag);
        if self.internals.data.count > 0 {
            self.internals.data.count = self.internals.data.count - 1;
            self.control.unlock(flag, was);
            proof {
                assert forall|parked: Seq<Thread>|
                    sched_inv(o, ob + parked) implies #[trigger] sched_inv(
                    *s,
                    self.internals.data.blocked@ + parked,
                ) by {}
            }
        } else {
            // Block: take the active thread; on hardware a cleanup task on
            // this core both parks it on `blocked` and releases the control
            // lock, after the successor has taken over.
            let cur = match swap_active(s, me, None) {
                Some(tcb) => tcb,
                None => {
                    proof {
                        assert(false);
                    }
                    vstd::pervasive::unreached()
                },
            };
            let ghost cur_g = cur;
            self.internals.data.blocked.push(cur);
            self.control.unlock(flag, was);
            // Find something to switch to, as the common block path does.
            let next: Thread = if s.ready.len() > 0 {
                s.ready.remove(0)
            } else {
                let mut idle = Thread::Worker(TCBImpl::new(Work { tag: 0 }, s.entry_point));
                crate::thread::assign_tid(&mut idle, Ghost(s.next_id@));
                proof {
                    s.next_id@ = s.next_id@ + 1;
                }
                idle
            };
            let ghost next_g = next;
            let mut holder = TaskHolder::new();
            core::mem::swap(&mut holder, &mut s.cleanup[me]);
            holder.add_task(CleanupTask::AssertAsActive(next));
            core::mem::swap(&mut holder, &mut s.cleanup[me]);
            let ghost pre = *s;
            // The context switch happens here on hardware; the successor
            // drains this core's cleanup queue first.
            cleanup(s, me);
            proof {
                let ts = seq![CleanupTask::AssertAsActive(next_g)];
                let r0 = if o.ready@.len() > 0 {
                    o.ready@.drop_first()
                } else {
                    o.ready@
                };
                assert(pre.ready@ =~= r0);
                assert(pre.cleanup@[me as int].tasks@ =~= ts);
                assert(pre.active@[me as int] is None);
                assert(ts[0] == CleanupTask::AssertAsActive(next_g));
                assert(apply_tasks(r0, None, ts) == apply_tasks(
                    r0,
                    Some(next_g),
                    ts.drop_first(),
                ));
                assert(Seq::<CleanupTask>::empty() =~= ts.drop_first());
                assert(apply_tasks(r0, Some(next_g), ts.drop_first()) == (r0, Some(next_g)));
                assert(s.active@ =~= o.active@.update(me as int, Some(next_g)));
                assert(self.internals.data.blocked@ =~= ob.push(cur_g));
                assert forall|j: int|
                    0 <= j < MAX_CORES implies #[trigger] s.cleanup@[j].tasks@
                    == o.cleanup@[j].tasks@ by {
                    if j == me {
                        assert(s.cleanup@[j].tasks@ =~= o.cleanup@[j].tasks@);
                    }
                }
                assert forall|parked: Seq<Thread>|
                    sched_inv(o, ob + parked) implies #[trigger] sched_inv(
                    *s,
                    self.internals.data.blocked@ + parked,
                ) by {
                    let nb = self.internals.data.blocked@;
                    assert forall|x: int| #[trigger] total_count(*s, nb + parked, x)
                        <= total_count(o, ob + parked, x) + if o.ready@.len() == 0 && tid(next_g)
                        == x {
                        1nat
                    } else {
                        0nat
                    } by {
                        lemma_count_concat(ob, parked, x);
                        lemma_count_concat(nb, parked, x);
                        lemma_count_push(ob, cur_g, x);
                        lemma_count_holders_pointwise(s.cleanup@, o.cleanup@, x);
                        lemma_count_active_update(o.active@, me as int, Some(next_g), x);
                        if o.ready@.len() > 0 {
                            lemma_count_remove0(o.ready@, x);
                        }
                    }
                    assert forall|x: int| #[trigger] total_count(*s, nb + parked, x) <= 1 by {
                        assert(total_count(o, ob + parked, x) <= 1);
                        if o.ready@.len() == 0 && tid(next_g) == x {
                            assert(total_count(o, ob + parked, x) == 0);
                        }
                    }
                    assert forall|x: int| x >= s.next_id@ implies #[trigger] total_count(
                        *s,
                        nb + parked,
                        x,
                    ) == 0 by {
                        assert(x >= o.next_id@);
                        assert(total_count(o, ob + parked, x) == 0);
                        if o.ready@.len() == 0 {
                            assert(tid(next_g) == o.next_id@ < x + 1);
                        }
                    }
                }
            }
        }
    }
}

} // verus!
