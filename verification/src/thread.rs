//! Threads and the per-core scheduler.
//!
//! Each core owns an `active` slot and a FIFO of one-shot cleanup tasks;
//! all cores share one FIFO ready queue. A thread that gives up its core
//! cannot put itself back on the ready queue while it is still running on
//! its own stack, so it enqueues that move as a cleanup task, picks a
//! successor, and the successor drains the task queue first thing after the
//! context switch. Here the whole hand-off is modelled at its quiescent
//! points: one call to `surrender` or `stop` performs take-active, task
//! enqueue, successor choice, and the successor's drain, and its contract
//! describes the state the successor sees.
//!
//! Thread identity is ghost: every thread entering the scheduler gets a
//! fresh ghost id, and the scheduler invariant says that no id is in two
//! places at once (ready queue, an `active` slot, a pending cleanup task, or
//! a parked queue such as a semaphore's blocked list).

use vstd::prelude::*;

use crate::zeroed_words;

verus! {

/// Number of cores the scheduler keeps state for.
pub const MAX_CORES: usize = 16;

/// Number of `u64` words in a worker stack.
pub const THREAD_STACK_WORDS: usize = 4096;

/// Callee-saved registers the context switch pushes.
pub const NUM_CALLEE_SAVED: usize = 6;

/// Work a worker thread runs on its first dispatch. On hardware this is a
/// one-shot closure; here it is a plain record the harness interprets.
pub struct Work {
    pub tag: u64,
}

/// Per-thread record the context-switch stub reads: the saved stack top.
/// `stack_pointer` is the byte offset of the saved-register area inside the
/// thread's own stack buffer. The id is ghost bookkeeping for the
/// membership invariant.
#[derive(Clone, Copy)]
pub struct TCBInfo {
    pub stack_pointer: usize,
    pub id: Ghost<int>,
}

impl TCBInfo {
    pub fn new(stack_pointer: usize) -> (r: TCBInfo)
        ensures
            r.stack_pointer == stack_pointer,
            r.id@ == 0,
    {
        TCBInfo { stack_pointer, id: Ghost(0) }
    }
}

/// The thread a core was born running: it uses the per-core boot stack and
/// never carries work.
pub struct BootstrapTCB {
    pub tcb_info: TCBInfo,
    pub stack_frame_start: Option<usize>,
}

impl BootstrapTCB {
    pub fn new() -> (r: BootstrapTCB)
        ensures
            r.tcb_info.stack_pointer == 0,
            r.tcb_info.id@ == 0,
            r.stack_frame_start is None,
    {
        BootstrapTCB { tcb_info: TCBInfo::new(0), stack_frame_start: None }
    }

    pub fn new_box() -> (r: Box<BootstrapTCB>)
        ensures
            r.tcb_info.stack_pointer == 0,
            r.tcb_info.id@ == 0,
            r.stack_frame_start is None,
    {
        Box::new(BootstrapTCB::new())
    }
}

/// A worker thread: an owned stack seeded for the first dispatch, and its
/// work, consumed exactly once.
pub struct TCBImpl {
    pub tcb_info: TCBInfo,
    pub stack: Vec<u64>,
    pub work: Option<Work>,
}

/// The stack image of a fresh worker: all zero, except that the top word
/// holds the entry point the first `ret` will jump to. Reading from the
/// top: entry point, six callee-saved registers, RFLAGS, CR2 — all zero.
pub open spec fn worker_stack(entry: u64) -> Seq<u64> {
    Seq::new(THREAD_STACK_WORDS as nat, |i: int| if i == THREAD_STACK_WORDS - 1 { entry } else { 0u64 })
}

/// Byte offset of the CR2 slot, where a fresh worker's stack pointer rests.
pub open spec fn fresh_stack_pointer() -> usize {
    ((THREAD_STACK_WORDS - NUM_CALLEE_SAVED - 3) * 8) as usize
}

impl TCBImpl {
    /// Builds a worker whose stack is laid out exactly as the context
    /// switch expects: `stack[top] == entry`, zeroed callee-saved, RFLAGS
    /// and CR2 slots, and the saved stack pointer addressing the CR2 slot.
    pub fn new(work: Work, entry: u64) -> (r: TCBImpl)
        ensures
            r.stack@ == worker_stack(entry),
            r.work == Some(work),
            r.tcb_info.stack_pointer == fresh_stack_pointer(),
            r.tcb_info.id@ == 0,
    {
        let mut stack = zeroed_words(THREAD_STACK_WORDS);
        let end_of_stack: usize = THREAD_STACK_WORDS - 1;
        stack[end_of_stack] = entry;
        let index: usize = end_of_stack - NUM_CALLEE_SAVED - 1;
        stack[index] = 0;
        stack[index - 1] = 0;
        let stack_ptr_start: usize = (index - 1) * 8;
        let tcb_info = TCBInfo::new(stack_ptr_start);
        proof {
            assert(stack@ =~= worker_stack(entry));
        }
        TCBImpl { tcb_info, stack, work: Some(work) }
    }
}

/// The capability set every thread variant offers the scheduler.
pub trait TCB: Sized {
    /// The info record the context switch will read.
    spec fn info_spec(&self) -> TCBInfo;

    /// The work still stored in this thread, if any.
    spec fn work_spec(&self) -> Option<Work>;

    fn get_info(&mut self) -> (r: TCBInfo)
        ensures
            *final(self) == *old(self),
            r == old(self).info_spec(),
    ;

    /// Takes the work out. A bootstrap thread never has work, so this is
    /// unreachable for it by construction.
    fn get_work(&mut self) -> (r: Work)
        requires
            old(self).work_spec() is Some,
        ensures
            Some(r) == old(self).work_spec(),
            final(self).work_spec() is None,
            final(self).info_spec() == old(self).info_spec(),
    ;
}

impl TCB for BootstrapTCB {
    open spec fn info_spec(&self) -> TCBInfo {
        self.tcb_info
    }

    open spec fn work_spec(&self) -> Option<Work> {
        None
    }

    fn get_info(&mut self) -> (r: TCBInfo) {
        self.tcb_info
    }

    fn get_work(&mut self) -> (r: Work) {
        proof {
            assert(false);
        }
        vstd::pervasive::unreached()
    }
}

impl TCB for TCBImpl {
    open spec fn info_spec(&self) -> TCBInfo {
        self.tcb_info
    }

    open spec fn work_spec(&self) -> Option<Work> {
        self.work
    }

    fn get_info(&mut self) -> (r: TCBInfo) {
        self.tcb_info
    }

    fn get_work(&mut self) -> (r: Work) {
        let mut work = None;
        core::mem::swap(&mut work, &mut self.work);
        match work {
            Some(task) => task,
            None => {
                proof {
                    assert(false);
                }
                vstd::pervasive::unreached()
            },
        }
    }
}

/// An owned thread, either the bootstrap thread of a core or a worker.
pub enum Thread {
    Bootstrap(BootstrapTCB),
    Worker(TCBImpl),
}

/// Ghost identity of a thread.
pub open spec fn tid(t: Thread) -> int {
    match t {
        Thread::Bootstrap(b) => b.tcb_info.id@,
        Thread::Worker(w) => w.tcb_info.id@,
    }
}

/// Two threads that differ at most in their ghost id.
pub open spec fn same_but_id(a: Thread, b: Thread) -> bool {
    match (a, b) {
        (Thread::Bootstrap(x), Thread::Bootstrap(y)) => {
            x.stack_frame_start == y.stack_frame_start && x.tcb_info.stack_pointer
                == y.tcb_info.stack_pointer
        },
        (Thread::Worker(x), Thread::Worker(y)) => {
            x.stack == y.stack && x.work == y.work && x.tcb_info.stack_pointer
                == y.tcb_info.stack_pointer
        },
        _ => false,
    }
}

/// Overwrites the ghost id of a thread.
pub(crate) fn assign_tid(t: &mut Thread, id: Ghost<int>)
    ensures
        tid(*final(t)) == id@,
        same_but_id(*old(t), *final(t)),
{
    match t {
        Thread::Bootstrap(b) => b.tcb_info.id = id,
        Thread::Worker(w) => w.tcb_info.id = id,
    }
}

/// The worker synthesized when the ready queue is empty: its work record is
/// the no-op tag 0.
pub open spec fn is_idle_worker(t: Thread, entry: u64) -> bool {
    match t {
        Thread::Worker(w) => {
            w.stack@ == worker_stack(entry) && w.work == Some(Work { tag: 0u64 })
                && w.tcb_info.stack_pointer == fresh_stack_pointer()
        },
        Thread::Bootstrap(_) => false,
    }
}

/// A one-shot deferred task, run by the successor thread on the same core.
pub enum CleanupTask {
    /// Put the suspended thread back on the shared ready queue.
    ReturnToReady(Thread),
    /// Let the stopped thread go.
    DropAndForget(Thread),
    /// Store the chosen successor into the core's active slot.
    AssertAsActive(Thread),
}

/// Per-core FIFO of cleanup tasks. No lock is modelled: only the owning
/// core touches it.
pub struct TaskHolder {
    pub tasks: Vec<CleanupTask>,
}

impl TaskHolder {
    pub fn new() -> (r: TaskHolder)
        ensures
            r.tasks@.len() == 0,
    {
        TaskHolder { tasks: Vec::new() }
    }

    pub fn add_task(&mut self, task: CleanupTask)
        ensures
            final(self).tasks@ == old(self).tasks@.push(task),
    {
        self.tasks.push(task);
    }

    pub fn get_task(&mut self) -> (r: Option<CleanupTask>)
        ensures
            old(self).tasks@.len() == 0 ==> r is None && final(self).tasks@ == old(self).tasks@,
            old(self).tasks@.len() > 0 ==> r == Some(old(self).tasks@[0]) && final(self).tasks@
                == old(self).tasks@.drop_first(),
    {
        if self.tasks.len() == 0 {
            None
        } else {
            let t = self.tasks.remove(0);
            proof {
                assert(self.tasks@ =~= old(self).tasks@.drop_first());
            }
            Some(t)
        }
    }
}

/// Process-wide scheduler state: the shared ready queue, one active slot
/// and one cleanup queue per core, and the entry point seeded into fresh
/// worker stacks.
pub struct Scheduler {
    pub ready: Vec<Thread>,
    pub active: Vec<Option<Thread>>,
    pub cleanup: Vec<TaskHolder>,
    pub entry_point: u64,
    pub next_id: Ghost<int>,
}

// ------------------------------------------------------------------
// Counting threads by ghost id, for the membership invariant.
// ------------------------------------------------------------------

/// Occurrences of id `x` in a queue of threads.
pub open spec fn count_in(q: Seq<Thread>, x: int) -> nat
    decreases q.len(),
{
    if q.len() == 0 {
        0
    } else {
        count_in(q.drop_last(), x) + if tid(q.last()) == x {
            1nat
        } else {
            0nat
        }
    }
}

pub open spec fn count_opt(o: Option<Thread>, x: int) -> nat {
    match o {
        Some(t) => if tid(t) == x {
            1nat
        } else {
            0nat
        },
        None => 0,
    }
}

/// Occurrences of id `x` across the active slots.
pub open spec fn count_active(a: Seq<Option<Thread>>, x: int) -> nat
    decreases a.len(),
{
    if a.len() == 0 {
        0
    } else {
        count_active(a.drop_last(), x) + count_opt(a.last(), x)
    }
}

/// The thread a cleanup task owns.
pub open spec fn task_thread(t: CleanupTask) -> Thread {
    match t {
        CleanupTask::ReturnToReady(x) => x,
        CleanupTask::DropAndForget(x) => x,
        CleanupTask::AssertAsActive(x) => x,
    }
}

pub open spec fn count_tasks(ts: Seq<CleanupTask>, x: int) -> nat
    decreases ts.len(),
{
    if ts.len() == 0 {
        0
    } else {
        count_tasks(ts.drop_last(), x) + if tid(task_thread(ts.last())) == x {
            1nat
        } else {
            0nat
        }
    }
}

pub open spec fn count_holders(hs: Seq<TaskHolder>, x: int) -> nat
    decreases hs.len(),
{
    if hs.len() == 0 {
        0
    } else {
        count_holders(hs.drop_last(), x) + count_tasks(hs.last().tasks@, x)
    }
}

/// Occurrences of id `x` anywhere in the scheduler.
pub open spec fn sched_count(s: Scheduler, x: int) -> nat {
    count_in(s.ready@, x) + count_active(s.active@, x) + count_holders(s.cleanup@, x)
}

/// Occurrences of id `x` in the whole system: the scheduler plus every
/// queue that parks threads outside it (semaphore blocked lists).
pub open spec fn total_count(s: Scheduler, parked: Seq<Thread>, x: int) -> nat {
    sched_count(s, x) + count_in(parked, x)
}

/// The scheduler invariant, and the statement of ready-queue membership:
/// at every quiescent point each thread is in exactly one of the ready
/// queue, some core's active slot, or a parked (blocked) queue — its ghost
/// id occurs at most once in the whole system — every cleanup queue has
/// been drained, and every id in the system is below the id counter, so a
/// fresh id is really fresh.
pub open spec fn sched_inv(s: Scheduler, parked: Seq<Thread>) -> bool {
    &&& s.active@.len() == MAX_CORES
    &&& s.cleanup@.len() == MAX_CORES
    &&& forall|x: int| total_count(s, parked, x) <= 1
    &&& forall|x: int| x >= s.next_id@ ==> total_count(s, parked, x) == 0
    &&& forall|i: int| 0 <= i < MAX_CORES ==> #[trigger] s.cleanup@[i].tasks@.len() == 0
}

// ------------------------------------------------------------------
// Lemmas about the counts.
// ------------------------------------------------------------------

/// Ready-queue membership: under the scheduler invariant, any given thread
/// is in at most one of the ready queue, an active slot, a pending cleanup
/// task, or a parked queue — and it is in one of them exactly, because the
/// scheduler owns every thread it knows.
pub proof fn lemma_thread_in_one_place(s: Scheduler, parked: Seq<Thread>, x: int)
    requires
        sched_inv(s, parked),
    ensures
        total_count(s, parked, x) <= 1,
{
}

pub proof fn lemma_count_push(q: Seq<Thread>, t: Thread, x: int)
    ensures
        count_in(q.push(t), x) == count_in(q, x) + if tid(t) == x {
            1nat
        } else {
            0nat
        },
{
    assert(q.push(t).drop_last() =~= q);
}

pub proof fn lemma_count_remove0(q: Seq<Thread>, x: int)
    requires
        q.len() > 0,
    ensures
        count_in(q, x) == count_in(q.drop_first(), x) + if tid(q[0]) == x {
            1nat
        } else {
            0nat
        },
    decreases q.len(),
{
    if q.len() == 1 {
        assert(q.drop_first() =~= Seq::<Thread>::empty());
        assert(q.drop_last() =~= Seq::<Thread>::empty());
    } else {
        lemma_count_remove0(q.drop_last(), x);
        assert(q.drop_last().drop_first() =~= q.drop_first().drop_last());
        assert(q.drop_last()[0] == q[0]);
        assert(q.drop_first().last() == q.last());
    }
}

pub proof fn lemma_count_concat(a: Seq<Thread>, b: Seq<Thread>, x: int)
    ensures
        count_in(a + b, x) == count_in(a, x) + count_in(b, x),
    decreases b.len(),
{
    if b.len() == 0 {
        assert(a + b =~= a);
    } else {
        lemma_count_concat(a, b.drop_last(), x);
        assert((a + b).drop_last() =~= a + b.drop_last());
        assert((a + b).last() == b.last());
    }
}

pub proof fn lemma_count_active_update(a: Seq<Option<Thread>>, i: int, v: Option<Thread>, x: int)
    requires
        0 <= i < a.len(),
    ensures
        count_active(a.update(i, v), x) + count_opt(a[i], x) == count_active(a, x) + count_opt(
            v,
            x,
        ),
    decreases a.len(),
{
    if i == a.len() - 1 {
        assert(a.update(i, v).drop_last() =~= a.drop_last());
        assert(a.update(i, v).last() == v);
    } else {
        lemma_count_active_update(a.drop_last(), i, v, x);
        assert(a.update(i, v).drop_last() =~= a.drop_last().update(i, v));
        assert(a.update(i, v).last() == a.last());
    }
}

pub proof fn lemma_count_holders_all_empty(hs: Seq<TaskHolder>, x: int)
    requires
        forall|i: int| 0 <= i < hs.len() ==> #[trigger] hs[i].tasks@.len() == 0,
    ensures
        count_holders(hs, x) == 0,
    decreases hs.len(),
{
    if hs.len() > 0 {
        assert(hs.last() == hs[hs.len() - 1]);
        lemma_count_holders_all_empty(hs.drop_last(), x);
    }
}

/// Two holder sequences whose task views agree pointwise count the same.
pub proof fn lemma_count_holders_pointwise(h1: Seq<TaskHolder>, h2: Seq<TaskHolder>, x: int)
    requires
        h1.len() == h2.len(),
        forall|i: int| 0 <= i < h1.len() ==> #[trigger] h1[i].tasks@ == h2[i].tasks@,
    ensures
        count_holders(h1, x) == count_holders(h2, x),
    decreases h1.len(),
{
    if h1.len() > 0 {
        lemma_count_holders_pointwise(h1.drop_last(), h2.drop_last(), x);
        assert(h1[h1.len() - 1].tasks@ == h2[h2.len() - 1].tasks@);
    }
}

// ------------------------------------------------------------------
// The cleanup drain.
// ------------------------------------------------------------------

/// Effect of one cleanup task on (ready queue, this core's active slot).
pub open spec fn apply_task(ready: Seq<Thread>, active: Option<Thread>, t: CleanupTask) -> (
    Seq<Thread>,
    Option<Thread>,
) {
    match t {
        CleanupTask::ReturnToReady(tcb) => (ready.push(tcb), active),
        CleanupTask::DropAndForget(_tcb) => (ready, active),
        CleanupTask::AssertAsActive(tcb) => (ready, Some(tcb)),
    }
}

/// Effect of draining a task queue in FIFO order: tasks run exactly in the
/// order they were enqueued.
pub open spec fn apply_tasks(ready: Seq<Thread>, active: Option<Thread>, ts: Seq<CleanupTask>) -> (
    Seq<Thread>,
    Option<Thread>,
)
    decreases ts.len(),
{
    if ts.len() == 0 {
        (ready, active)
    } else {
        let stepped = apply_task(ready, active, ts[0]);
        apply_tasks(stepped.0, stepped.1, ts.drop_first())
    }
}

/// Swaps the active thread of core `me` with another thread. Swapping in
/// `None` marks the core as mid-surrender, which disables preemption on it.
pub fn swap_active(s: &mut Scheduler, me: usize, swap_to: Option<Thread>) -> (r: Option<Thread>)
    requires
        me < old(s).active@.len(),
    ensures
        final(s).active@ == old(s).active@.update(me as int, swap_to),
        r == old(s).active@[me as int],
        final(s).ready == old(s).ready,
        final(s).cleanup == old(s).cleanup,
        final(s).entry_point == old(s).entry_point,
        final(s).next_id == old(s).next_id,
{
    let mut slot = swap_to;
    core::mem::swap(&mut slot, &mut s.active[me]);
    slot
}

/// Drains core `me`'s cleanup queue, applying every task in FIFO order.
/// This runs as the first act of a thread that has just been switched to,
/// before any of its own work: so every task enqueued on this core runs
/// before the successor's user code.
pub fn cleanup(s: &mut Scheduler, me: usize)
    requires
        me < old(s).active@.len(),
        me < old(s).cleanup@.len(),
    ensures
        final(s).cleanup@.len() == old(s).cleanup@.len(),
        final(s).cleanup@[me as int].tasks@.len() == 0,
        forall|j: int|
            0 <= j < old(s).cleanup@.len() && j != me ==> final(s).cleanup@[j]
                == old(s).cleanup@[j],
        final(s).active@.len() == old(s).active@.len(),
        forall|j: int|
            0 <= j < old(s).active@.len() && j != me ==> final(s).active@[j] == old(s).active@[j],
        (final(s).ready@, final(s).active@[me as int]) == apply_tasks(
            old(s).ready@,
            old(s).active@[me as int],
            old(s).cleanup@[me as int].tasks@,
        ),
        final(s).entry_point == old(s).entry_point,
        final(s).next_id == old(s).next_id,
{
    let mut holder = TaskHolder::new();
    core::mem::swap(&mut holder, &mut s.cleanup[me]);
    let ghost orig_ready = s.ready@;
    let ghost orig_active = s.active@[me as int];
    let ghost orig_tasks = holder.tasks@;
    while holder.tasks.len() != 0
        invariant
            me < s.active@.len(),
            me < s.cleanup@.len(),
            s.active@.len() == old(s).active@.len(),
            s.cleanup@.len() == old(s).cleanup@.len(),
            s.cleanup@[me as int].tasks@.len() == 0,
            forall|j: int|
                0 <= j < old(s).cleanup@.len() && j != me ==> s.cleanup@[j] == old(s).cleanup@[j],
            forall|j: int|
                0 <= j < old(s).active@.len() && j != me ==> s.active@[j] == old(s).active@[j],
            apply_tasks(s.ready@, s.active@[me as int], holder.tasks@) == apply_tasks(
                orig_ready,
                orig_active,
                orig_tasks,
            ),
            s.entry_point == old(s).entry_point,
            s.next_id == old(s).next_id,
        decreases holder.tasks@.len(),
    {
        let ghost pre_ready = s.ready@;
        let ghost pre_active = s.active@[me as int];
        let ghost pre_tasks = holder.tasks@;
        let task = match holder.get_task() {
            Some(t) => t,
            None => {
                proof {
                    assert(false);
                }
                vstd::pervasive::unreached()
            },
        };
        let ghost task_g = task;
        match task {
            CleanupTask::ReturnToReady(t) => {
                s.ready.push(t);
            },
            CleanupTask::DropAndForget(_t) => {},
            CleanupTask::AssertAsActive(t) => {
                let _prior = swap_active(s, me, Some(t));
            },
        }
        proof {
            assert(apply_tasks(pre_ready, pre_active, pre_tasks) == apply_tasks(
                s.ready@,
                s.active@[me as int],
                holder.tasks@,
            ));
        }
    }
    proof {
        assert(apply_tasks(s.ready@, s.active@[me as int], holder.tasks@) == (
            s.ready@,
            s.active@[me as int],
        ));
    }
}

/// Relation between scheduler states across `surrender` (`run_again`) or
/// `stop` (`!run_again`): the caller's thread moves to the ready queue or
/// is dropped, the head of the ready queue (or a synthesized idle worker)
/// becomes active on this core, and this core's cleanup queue is drained.
pub open spec fn surrender_post(o: Scheduler, n: Scheduler, me: int, run_again: bool) -> bool {
    &&& n.entry_point == o.entry_point
    &&& n.active@.len() == o.active@.len()
    &&& n.cleanup@.len() == o.cleanup@.len()
    &&& forall|j: int| 0 <= j < o.cleanup@.len() ==> #[trigger] n.cleanup@[j].tasks@ == o.cleanup@[j].tasks@
    &&& match o.active@[me] {
        None => {
            &&& n.ready@ == o.ready@
            &&& n.active@ == o.active@
            &&& n.next_id@ == o.next_id@
        },
        Some(cur) => {
            if o.ready@.len() > 0 {
                &&& n.next_id@ == o.next_id@
                &&& n.active@ == o.active@.update(me, Some(o.ready@[0]))
                &&& n.ready@ == if run_again {
                    o.ready@.drop_first().push(cur)
                } else {
                    o.ready@.drop_first()
                }
            } else {
                &&& n.next_id@ == o.next_id@ + 1
                &&& (match n.active@[me] {
                    Some(t) => is_idle_worker(t, o.entry_point) && tid(t) == o.next_id@,
                    None => false,
                })
                &&& n.active@ == o.active@.update(me, n.active@[me])
                &&& n.ready@ == if run_again {
                    o.ready@.push(cur)
                } else {
                    o.ready@
                }
            }
        },
    }
}

/// The common path of `surrender` and `stop`. If the core has no active
/// thread it is already mid-surrender and the call returns silently.
fn surrender_help(s: &mut Scheduler, me: usize, run_again: bool)
    requires
        me < MAX_CORES,
        old(s).active@.len() == MAX_CORES,
        old(s).cleanup@.len() == MAX_CORES,
        old(s).cleanup@[me as int].tasks@.len() == 0,
    ensures
        surrender_post(*old(s), *final(s), me as int, run_again),
        forall|parked: Seq<Thread>|
            sched_inv(*old(s), parked) ==> #[trigger] sched_inv(*final(s), parked),
{
    let ghost o = *old(s);
    let cur = match swap_active(s, me, None) {
        Some(tcb) => tcb,
        None => {
            proof {
                assert(s.active@ =~= o.active@);
                assert forall|parked: Seq<Thread>| sched_inv(o, parked) implies #[trigger] sched_inv(
                    *s,
                    parked,
                ) by {
                    assert forall|x: int| #[trigger] total_count(*s, parked, x) == total_count(
                        o,
                        parked,
                        x,
                    ) by {}
                }
            }
            return ;
        },
    };
    let ghost cur_g = cur;
    let ghost task_g = if run_again {
        CleanupTask::ReturnToReady(cur_g)
    } else {
        CleanupTask::DropAndForget(cur_g)
    };
    let task = if run_again {
        CleanupTask::ReturnToReady(cur)
    } else {
        CleanupTask::DropAndForget(cur)
    };
    let mut holder = TaskHolder::new();
    core::mem::swap(&mut holder, &mut s.cleanup[me]);
    holder.add_task(task);
    // Pick the successor: the head of the ready queue, or a fresh idle
    // worker when nothing is ready.
    let next: Thread = if s.ready.len() > 0 {
        s.ready.remove(0)
    } else {
        let mut idle = Thread::Worker(TCBImpl::new(Work { tag: 0 }, s.entry_point));
        assign_tid(&mut idle, Ghost(s.next_id@));
        proof {
            s.next_id@ = s.next_id@ + 1;
        }
        idle
    };
    let ghost next_g = next;
    holder.add_task(CleanupTask::AssertAsActive(next));
    core::mem::swap(&mut holder, &mut s.cleanup[me]);
    let ghost pre = *s;
    // The context switch to `next` happens here on hardware. The successor
    // drains this core's cleanup queue before running anything else.
    cleanup(s, me);
    proof {
        let ts = seq![task_g, CleanupTask::AssertAsActive(next_g)];
        let r0 = if o.ready@.len() > 0 {
            o.ready@.drop_first()
        } else {
            o.ready@
        };
        assert(pre.ready@ =~= r0);
        assert(pre.cleanup@[me as int].tasks@ =~= ts);
        assert(pre.active@[me as int] is None);
        let r1 = if run_again {
            r0.push(cur_g)
        } else {
            r0
        };
        let ts1 = ts.drop_first();
        assert(seq![CleanupTask::AssertAsActive(next_g)] =~= ts1);
        assert(Seq::<CleanupTask>::empty() =~= ts1.drop_first());
        assert(ts[0] == task_g);
        assert(apply_tasks(r0, None, ts) == apply_tasks(r1, None, ts1));
        assert(apply_tasks(r1, None, ts1) == apply_tasks(r1, Some(next_g), ts1.drop_first()));
        assert(apply_tasks(r1, Some(next_g), ts1.drop_first()) == (r1, Some(next_g)));
        assert(s.active@ =~= o.active@.update(me as int, Some(next_g)));
        assert forall|j: int| 0 <= j < o.cleanup@.len() implies #[trigger] s.cleanup@[j].tasks@
            == o.cleanup@[j].tasks@ by {
            if j == me {
                assert(s.cleanup@[j].tasks@ =~= o.cleanup@[j].tasks@);
            }
        }
        assert(surrender_post(o, *s, me as int, run_again));
        assert forall|parked: Seq<Thread>| sched_inv(o, parked) implies #[trigger] sched_inv(
            *s,
            parked,
        ) by {
            assert forall|x: int| #[trigger] total_count(*s, parked, x) <= total_count(o, parked, x)
                + if o.ready@.len() == 0 && tid(next_g) == x {
                1nat
            } else {
                0nat
            } by {
                lemma_count_holders_pointwise(s.cleanup@, o.cleanup@, x);
                lemma_count_holders_all_empty(o.cleanup@, x);
                lemma_count_active_update(o.active@, me as int, Some(next_g), x);
                if o.ready@.len() > 0 {
                    lemma_count_remove0(o.ready@, x);
                    if run_again {
                        lemma_count_push(o.ready@.drop_first(), cur_g, x);
                    }
                } else {
                    if run_again {
                        lemma_count_push(o.ready@, cur_g, x);
                    }
                }
            }
            assert forall|x: int| x >= s.next_id@ implies #[trigger] total_count(*s, parked, x)
                == 0 by {
                assert(total_count(*s, parked, x) <= total_count(o, parked, x) + if o.ready@.len()
                    == 0 && tid(next_g) == x {
                    1nat
                } else {
                    0nat
                });
                assert(x >= o.next_id@);
                if o.ready@.len() == 0 {
                    assert(tid(next_g) == o.next_id@ < x + 1);
                }
            }
        }
    }
}

/// Gives up the core and lets this thread run again later: it is queued on
/// the shared ready queue by its successor.
pub fn surrender(s: &mut Scheduler, me: usize)
    requires
        me < MAX_CORES,
        old(s).active@.len() == MAX_CORES,
        old(s).cleanup@.len() == MAX_CORES,
        old(s).cleanup@[me as int].tasks@.len() == 0,
    ensures
        surrender_post(*old(s), *final(s), me as int, true),
        forall|parked: Seq<Thread>|
            sched_inv(*old(s), parked) ==> #[trigger] sched_inv(*final(s), parked),
{
    surrender_help(s, me, true);
}

/// Gives up the core forever: the thread is dropped by its successor.
pub fn stop(s: &mut Scheduler, me: usize)
    requires
        me < MAX_CORES,
        old(s).active@.len() == MAX_CORES,
        old(s).cleanup@.len() == MAX_CORES,
        old(s).cleanup@[me as int].tasks@.len() == 0,
    ensures
        surrender_post(*old(s), *final(s), me as int, false),
        forall|parked: Seq<Thread>|
            sched_inv(*old(s), parked) ==> #[trigger] sched_inv(*final(s), parked),
{
    surrender_help(s, me, false);
}

/// Hands a new thread to the scheduler: it is appended to the shared ready
/// queue under a fresh ghost id.
pub fn schedule(s: &mut Scheduler, tcb: Thread)
    ensures
        final(s).ready@.len() == old(s).ready@.len() + 1,
        final(s).ready@.drop_last() == old(s).ready@,
        same_but_id(tcb, final(s).ready@.last()),
        tid(final(s).ready@.last()) == old(s).next_id@,
        final(s).next_id@ == old(s).next_id@ + 1,
        final(s).active == old(s).active,
        final(s).cleanup == old(s).cleanup,
        final(s).entry_point == old(s).entry_point,
        forall|parked: Seq<Thread>|
            sched_inv(*old(s), parked) ==> #[trigger] sched_inv(*final(s), parked),
{
    let ghost o = *old(s);
    let mut t = tcb;
    assign_tid(&mut t, Ghost(s.next_id@));
    proof {
        s.next_id@ = s.next_id@ + 1;
    }
    let ghost t_g = t;
    s.ready.push(t);
    proof {
        assert(s.ready@.drop_last() =~= o.ready@);
        assert forall|parked: Seq<Thread>| sched_inv(o, parked) implies #[trigger] sched_inv(
            *s,
            parked,
        ) by {
            assert forall|x: int| #[trigger] total_count(*s, parked, x) <= 1 by {
                lemma_count_push(o.ready@, t_g, x);
                assert(total_count(o, parked, x) <= 1);
                if tid(t_g) == x {
                    assert(total_count(o, parked, x) == 0);
                }
            }
            assert forall|x: int| x >= s.next_id@ implies #[trigger] total_count(*s, parked, x)
                == 0 by {
                lemma_count_push(o.ready@, t_g, x);
                assert(x >= o.next_id@);
                assert(total_count(o, parked, x) == 0);
            }
        }
    }
}

/// First code of every worker: drain this core's cleanup queue, take the
/// active thread, extract its work, and put the thread back. The caller
/// (the harness) then runs the work and finishes with `stop`.
pub fn thread_entry_point(s: &mut Scheduler, me: usize) -> (w: Work)
    requires
        me < MAX_CORES,
        old(s).active@.len() == MAX_CORES,
        old(s).cleanup@.len() == MAX_CORES,
        old(s).cleanup@[me as int].tasks@.len() == 0,
        (match old(s).active@[me as int] {
            Some(Thread::Worker(tcb)) => tcb.work is Some,
            _ => false,
        }),
    ensures
        (match old(s).active@[me as int] {
            Some(Thread::Worker(tcb)) => {
                &&& Some(w) == tcb.work
                &&& final(s).active@ == old(s).active@.update(
                    me as int,
                    Some(Thread::Worker(TCBImpl { work: None, ..tcb })),
                )
            },
            _ => false,
        }),
        final(s).ready@ == old(s).ready@,
        final(s).cleanup@.len() == old(s).cleanup@.len(),
        forall|j: int|
            0 <= j < old(s).cleanup@.len() ==> #[trigger] final(s).cleanup@[j].tasks@
                == old(s).cleanup@[j].tasks@,
        final(s).entry_point == old(s).entry_point,
        final(s).next_id == old(s).next_id,
        forall|parked: Seq<Thread>|
            sched_inv(*old(s), parked) ==> #[trigger] sched_inv(*final(s), parked),
{
    let ghost o = *old(s);
    cleanup(s, me);
    let active = match swap_active(s, me, None) {
        Some(t) => t,
        None => {
            proof {
                assert(false);
            }
            vstd::pervasive::unreached()
        },
    };
    let mut tcb = match active {
        Thread::Worker(tcb) => tcb,
        Thread::Bootstrap(_) => {
            proof {
                assert(false);
            }
            vstd::pervasive::unreached()
        },
    };
    let mut work_opt: Option<Work> = None;
    core::mem::swap(&mut work_opt, &mut tcb.work);
    let task = match work_opt {
        Some(w) => w,
        None => {
            proof {
                assert(false);
            }
            vstd::pervasive::unreached()
        },
    };
    let ghost t1 = tcb;
    let _ = swap_active(s, me, Some(Thread::Worker(tcb)));
    proof {
        let t0 = match o.active@[me as int] {
            Some(Thread::Worker(t)) => t,
            _ => arbitrary(),
        };
        assert(t1 == TCBImpl { work: None, ..t0 });
        assert(s.active@ =~= o.active@.update(me as int, Some(Thread::Worker(t1))));
        assert(tid(Thread::Worker(t1)) == tid(Thread::Worker(t0)));
        assert forall|j: int|
            0 <= j < o.cleanup@.len() implies #[trigger] s.cleanup@[j].tasks@
                == o.cleanup@[j].tasks@ by {
            if j == me {
                assert(s.cleanup@[j].tasks@ =~= o.cleanup@[j].tasks@);
            }
        }
        assert forall|parked: Seq<Thread>| sched_inv(o, parked) implies #[trigger] sched_inv(
            *s,
            parked,
        ) by {
            assert forall|x: int| #[trigger] total_count(*s, parked, x) == total_count(
                o,
                parked,
                x,
            ) by {
                lemma_count_holders_pointwise(s.cleanup@, o.cleanup@, x);
                lemma_count_active_update(o.active@, me as int, Some(Thread::Worker(t1)), x);
                assert(count_opt(o.active@[me as int], x) == count_opt(
                    Some(Thread::Worker(t1)),
                    x,
                ));
            }
        }
    }
    task
}

impl Scheduler {
    /// Fresh scheduler state: every core starts active in its bootstrap
    /// thread, the ready queue is empty, every cleanup queue is empty.
    /// `entry_point` is the address seeded into fresh worker stacks.
    pub fn new(entry_point: u64) -> (s: Scheduler)
        ensures
            s.active@.len() == MAX_CORES,
            s.cleanup@.len() == MAX_CORES,
            s.ready@.len() == 0,
            forall|i: int| 0 <= i < MAX_CORES ==> #[trigger] s.cleanup@[i].tasks@.len() == 0,
            forall|i: int|
                0 <= i < MAX_CORES ==> ((#[trigger] s.active@[i]) matches Some(t) && t is Bootstrap),
            s.entry_point == entry_point,
            sched_inv(s, Seq::<Thread>::empty()),
    {
        let mut active: Vec<Option<Thread>> = Vec::new();
        let mut cleanup: Vec<TaskHolder> = Vec::new();
        let mut i: usize = 0;
        while i < MAX_CORES
            invariant
                i <= MAX_CORES,
                active@.len() == i,
                cleanup@.len() == i,
                forall|j: int| 0 <= j < i ==> #[trigger] cleanup@[j].tasks@.len() == 0,
                forall|j: int|
                    0 <= j < i ==> ((#[trigger] active@[j]) matches Some(t) && t is Bootstrap
                        && tid(t) == j),
                forall|x: int|
                    count_active(active@, x) == if 0 <= x < i {
                        1nat
                    } else {
                        0nat
                    },
            decreases MAX_CORES - i,
        {
            let mut boot = Thread::Bootstrap(BootstrapTCB::new());
            assign_tid(&mut boot, Ghost(i as int));
            let ghost prev = active@;
            let ghost boot_g = boot;
            active.push(Some(boot));
            cleanup.push(TaskHolder::new());
            proof {
                assert(active@.drop_last() =~= prev);
                assert(active@.last() == Some(boot_g));
                assert(tid(boot_g) == i as int);
                assert forall|x: int|
                    count_active(active@, x) == (if 0 <= x < i + 1 {
                        1nat
                    } else {
                        0nat
                    }) by {
                    assert(count_active(active@, x) == count_active(prev, x) + count_opt(
                        Some(boot_g),
                        x,
                    ));
                }
            }
            i = i + 1;
        }
        let s = Scheduler {
            ready: Vec::new(),
            active,
            cleanup,
            entry_point,
            next_id: Ghost(MAX_CORES as int),
        };
        proof {
            assert forall|x: int| total_count(s, Seq::<Thread>::empty(), x) <= 1 by {
                lemma_count_holders_all_empty(s.cleanup@, x);
            }
            assert forall|x: int| x >= s.next_id@ implies total_count(s, Seq::<Thread>::empty(), x)
                == 0 by {
                lemma_count_holders_all_empty(s.cleanup@, x);
            }
        }
        s
    }
}

} // verus!
