//! The state that every handle of one worker pool shares: the FIFO queue of
//! submitted tasks, the state of each worker, the count of live handles and
//! whether the producing end of the queue is still open.
//!
//! Threads are not this module's concern: whoever runs the workers keeps this
//! state under one lock and asks it, at each step, what happens next.
use std::collections::VecDeque;
use vstd::prelude::*;

verus! {

/// Why a pool could not be built.
#[derive(Clone, Copy, Debug, PartialEq, Eq, Structural)]
pub enum PoolError {
    /// A pool was asked for with zero worker threads.
    InvalidThreadCount,
}

/// Returned by `get_task` once the producing end is closed and the queue is
/// empty: no task can ever arrive again.
#[derive(Clone, Copy, Debug, PartialEq, Eq, Structural)]
pub struct RecvError;

/// Where one worker loop stands.
#[derive(Clone, Copy, Debug, PartialEq, Eq, Structural)]
pub enum WorkerState {
    /// Waiting for exclusive access to the queue, or for a task in it.
    Waiting,
    /// Running a task it took from the queue.
    Executing,
    /// Left its loop because the queue was closed and empty.
    Terminated,
    /// Died of an unhandled fault in the task it ran; never replaced.
    Faulted,
}

/// What the discard of one handle obliges its caller to do.
#[derive(Clone, Copy, Debug, PartialEq, Eq, Structural)]
pub enum Teardown {
    /// Other handles are still alive: return at once.
    Keep,
    /// This was the last handle: the producing end is closed now, and every
    /// worker must be joined before the discard returns.
    CloseThenJoin,
}

/// How many of `ws` are in state `s`.
pub open spec fn count_state(ws: Seq<WorkerState>, s: WorkerState) -> nat
    decreases ws.len(),
{
    if ws.len() == 0 {
        0
    } else {
        count_state(ws.drop_last(), s) + if ws.last() == s {
            1nat
        } else {
            0nat
        }
    }
}

/// A worker is live while it waits for or runs a task.
pub open spec fn is_live(w: WorkerState) -> bool {
    w == WorkerState::Waiting || w == WorkerState::Executing
}

/// The abstract state of a pool.
pub struct PoolView<T> {
    /// The state of each worker; fixed in number at construction.
    pub workers: Seq<WorkerState>,
    /// Tasks delivered and not yet taken, oldest first.
    pub queue: Seq<T>,
    /// How many handles are alive.
    pub handles: nat,
    /// Whether the producing end of the queue is still open.
    pub open: bool,
    /// Every task the queue accepted, in order of delivery.
    pub submitted: Seq<T>,
    /// Every task a worker took from the queue, in order of taking.
    pub taken: Seq<T>,
    /// How many taken tasks ran to completion.
    pub finished: nat,
}

impl<T> PoolView<T> {
    /// A pool as `with_thread_count(n)` builds it.
    pub open spec fn fresh(n: nat) -> PoolView<T> {
        PoolView {
            workers: Seq::new(n, |i: int| WorkerState::Waiting),
            queue: Seq::empty(),
            handles: 1,
            open: true,
            submitted: Seq::empty(),
            taken: Seq::empty(),
            finished: 0,
        }
    }

    pub open spec fn count(self, s: WorkerState) -> nat {
        count_state(self.workers, s)
    }

    /// How many workers still serve the queue.
    pub open spec fn live(self) -> nat {
        self.count(WorkerState::Waiting) + self.count(WorkerState::Executing)
    }

    /// What holds of every reachable pool.
    pub open spec fn wf(self) -> bool {
        &&& self.workers.len() >= 1
        &&& self.submitted == self.taken + self.queue
        &&& self.taken.len() == self.finished + self.count(WorkerState::Executing) + self.count(
            WorkerState::Faulted,
        )
        &&& self.open <==> self.handles > 0
        &&& self.count(WorkerState::Terminated) > 0 ==> !self.open && self.queue.len() == 0
    }

    /// The last handle is gone and no worker is left in its loop.
    pub open spec fn torn_down(self) -> bool {
        &&& self.handles == 0
        &&& forall|i: int|
            0 <= i < self.workers.len() ==> !is_live(#[trigger] self.workers[i])
    }

    /// After `spawn(task)`: appended while the producing end is open, else lost.
    pub open spec fn spawned(self, task: T) -> PoolView<T> {
        if self.open {
            PoolView { queue: self.queue.push(task), submitted: self.submitted.push(task), ..self }
        } else {
            self
        }
    }

    /// After one more handle was made.
    pub open spec fn duplicated(self) -> PoolView<T> {
        PoolView { handles: self.handles + 1, ..self }
    }

    /// After one handle was discarded: the last one closes the producing end.
    pub open spec fn discarded(self) -> PoolView<T> {
        if self.handles > 1 {
            PoolView { handles: (self.handles - 1) as nat, ..self }
        } else {
            PoolView { handles: 0, open: false, ..self }
        }
    }

    /// After worker `i` took the oldest task.
    pub open spec fn took(self, i: int) -> PoolView<T> {
        PoolView {
            workers: self.workers.update(i, WorkerState::Executing),
            queue: self.queue.drop_first(),
            taken: self.taken.push(self.queue[0]),
            ..self
        }
    }

    /// After worker `i` found the queue closed and empty.
    pub open spec fn terminated(self, i: int) -> PoolView<T> {
        PoolView { workers: self.workers.update(i, WorkerState::Terminated), ..self }
    }

    /// After worker `i` ran its task to completion.
    pub open spec fn finished_by(self, i: int) -> PoolView<T> {
        PoolView {
            workers: self.workers.update(i, WorkerState::Waiting),
            finished: self.finished + 1,
            ..self
        }
    }

    /// After the task of worker `i` raised an unhandled fault.
    pub open spec fn faulted(self, i: int) -> PoolView<T> {
        PoolView { workers: self.workers.update(i, WorkerState::Faulted), ..self }
    }
}

/// Counting after one worker's state changed.
proof fn lemma_count_update(ws: Seq<WorkerState>, i: int, w: WorkerState, s: WorkerState)
    requires
        0 <= i < ws.len(),
    ensures
        count_state(ws.update(i, w), s) + (if ws[i] == s {
            1nat
        } else {
            0nat
        }) == count_state(ws, s) + (if w == s {
            1nat
        } else {
            0nat
        }),
    decreases ws.len(),
{
    let u = ws.update(i, w);
    if i < ws.len() - 1 {
        assert(u.drop_last() == ws.drop_last().update(i, w));
        lemma_count_update(ws.drop_last(), i, w, s);
    } else {
        assert(u.drop_last() == ws.drop_last());
    }
}

/// Two different states count no more than all workers together.
proof fn lemma_count_bound(ws: Seq<WorkerState>, s: WorkerState, t: WorkerState)
    requires
        s != t,
    ensures
        count_state(ws, s) + count_state(ws, t) <= ws.len(),
    decreases ws.len(),
{
    if ws.len() > 0 {
        lemma_count_bound(ws.drop_last(), s, t);
    }
}

/// Every worker of a new pool waits.
proof fn lemma_count_fresh(n: nat, s: WorkerState)
    ensures
        count_state(Seq::new(n, |i: int| WorkerState::Waiting), s) == if s == WorkerState::Waiting {
            n
        } else {
            0
        },
    decreases n,
{
    if n > 0 {
        let ws = Seq::new(n, |i: int| WorkerState::Waiting);
        assert(ws.drop_last() == Seq::new((n - 1) as nat, |i: int| WorkerState::Waiting));
        lemma_count_fresh((n - 1) as nat, s);
    }
}

/// A state that no worker is in counts zero.
proof fn lemma_count_zero(ws: Seq<WorkerState>, s: WorkerState)
    requires
        forall|i: int| 0 <= i < ws.len() ==> ws[i] != s,
    ensures
        count_state(ws, s) == 0,
    decreases ws.len(),
{
    if ws.len() > 0 {
        lemma_count_zero(ws.drop_last(), s);
    }
}

/// A state that some worker is in counts at least one.
proof fn lemma_count_pos(ws: Seq<WorkerState>, i: int)
    requires
        0 <= i < ws.len(),
    ensures
        count_state(ws, ws[i]) > 0,
    decreases ws.len(),
{
    if i < ws.len() - 1 {
        lemma_count_pos(ws.drop_last(), i);
    }
}


/// A pool built for `n >= 1` threads is well formed and has exactly `n`
/// live workers.
pub proof fn lemma_fresh_pool_has_n_workers<T>(n: nat)
    requires
        n >= 1,
    ensures
        PoolView::<T>::fresh(n).wf(),
        PoolView::<T>::fresh(n).live() == n,
        PoolView::<T>::fresh(n).workers.len() == n,
{
    lemma_count_fresh(n, WorkerState::Waiting);
    lemma_count_fresh(n, WorkerState::Executing);
    lemma_count_fresh(n, WorkerState::Faulted);
    lemma_count_fresh(n, WorkerState::Terminated);
    let v = PoolView::<T>::fresh(n);
    assert(v.submitted == v.taken + v.queue);
}

/// Once a pool is torn down and at least one worker left its loop normally,
/// every task the queue accepted was taken by exactly one worker, in order
/// of delivery, and each of them either ran to completion or killed the
/// worker that ran it.
pub proof fn lemma_teardown_ran_every_task<T>(v: PoolView<T>)
    requires
        v.wf(),
        v.torn_down(),
        v.count(WorkerState::Terminated) > 0,
    ensures
        v.queue.len() == 0,
        v.taken == v.submitted,
        v.finished + v.count(WorkerState::Faulted) == v.submitted.len(),
{
    lemma_count_zero(v.workers, WorkerState::Executing);
    assert(v.taken + v.queue == v.taken);
}

/// Without faults, tearing a pool down runs every submitted task exactly
/// once: the count of completed tasks is the count of submitted ones.
pub proof fn lemma_teardown_without_faults<T>(v: PoolView<T>)
    requires
        v.wf(),
        v.torn_down(),
        v.count(WorkerState::Faulted) == 0,
    ensures
        v.taken == v.submitted,
        v.finished == v.submitted.len(),
{
    // Some worker left its loop normally: worker 0 is not live and did not fault.
    assert(!is_live(v.workers[0]));
    lemma_count_pos(v.workers, 0);
    lemma_teardown_ran_every_task(v);
}

/// A fault kills only the worker whose task raised it: every other worker
/// keeps its state, the queue and what was delivered stay as they were, and
/// the pool has one live worker less.
pub proof fn lemma_fault_spares_the_rest<T>(v: PoolView<T>, i: int)
    requires
        v.wf(),
        0 <= i < v.workers.len(),
        v.workers[i] == WorkerState::Executing,
    ensures
        v.faulted(i).wf(),
        forall|j: int| 0 <= j < v.workers.len() && j != i ==> v.faulted(i).workers[j] == v.workers[j],
        v.faulted(i).queue == v.queue,
        v.faulted(i).submitted == v.submitted,
        v.faulted(i).live() + 1 == v.live(),
{
    lemma_count_update(v.workers, i, WorkerState::Faulted, WorkerState::Waiting);
    lemma_count_update(v.workers, i, WorkerState::Faulted, WorkerState::Executing);
    lemma_count_update(v.workers, i, WorkerState::Faulted, WorkerState::Faulted);
    lemma_count_update(v.workers, i, WorkerState::Faulted, WorkerState::Terminated);
}

/// Discarding a duplicate never tears the pool down and gives back the
/// pool as it was before the duplication; only the discard of the last
/// handle closes the producing end.
pub proof fn lemma_discard_duplicate<T>(v: PoolView<T>)
    requires
        v.wf(),
        v.handles >= 1,
    ensures
        v.duplicated().handles > 1,
        v.duplicated().discarded() == v,
        v.discarded().open <==> v.handles > 1,
{
}

/// The shared state behind every handle of one pool.
pub struct Pool<T> {
    workers: Vec<WorkerState>,
    queue: VecDeque<T>,
    handles: usize,
    open: bool,
    submitted: Ghost<Seq<T>>,
    taken: Ghost<Seq<T>>,
    finished: Ghost<nat>,
}

impl<T> View for Pool<T> {
    type V = PoolView<T>;

    closed spec fn view(&self) -> PoolView<T> {
        PoolView {
            workers: self.workers@,
            queue: self.queue@,
            handles: self.handles as nat,
            open: self.open,
            submitted: self.submitted@,
            taken: self.taken@,
            finished: self.finished@,
        }
    }
}

impl<T> Pool<T> {
    /// Builds a pool of `n` waiting workers on one empty, open queue, with a
    /// single handle; zero workers is refused.
    pub fn with_thread_count(n: usize) -> (r: Result<Pool<T>, PoolError>)
        ensures
            r is Err <==> n == 0,
            r matches Err(e) ==> e == PoolError::InvalidThreadCount,
            r matches Ok(p) ==> p@ == PoolView::<T>::fresh(n as nat) && p@.wf() && p@.live() == n,
    {
        if n == 0 {
            return Err(PoolError::InvalidThreadCount);
        }
        let mut workers: Vec<WorkerState> = Vec::new();
        let mut i: usize = 0;
        while i < n
            invariant
                i <= n,
                workers@ == Seq::new(i as nat, |k: int| WorkerState::Waiting),
            decreases n - i,
        {
            workers.push(WorkerState::Waiting);
            i = i + 1;
        }
        let p = Pool {
            workers,
            queue: VecDeque::new(),
            handles: 1,
            open: true,
            submitted: Ghost(Seq::empty()),
            taken: Ghost(Seq::empty()),
            finished: Ghost(0),
        };
        proof {
            lemma_count_fresh(n as nat, WorkerState::Waiting);
            lemma_count_fresh(n as nat, WorkerState::Executing);
            lemma_count_fresh(n as nat, WorkerState::Faulted);
            lemma_count_fresh(n as nat, WorkerState::Terminated);
            assert(p@.submitted == p@.taken + p@.queue);
        }
        Ok(p)
    }

    /// Appends `task` at the tail of the queue; once the producing end is
    /// closed the task is silently lost.
    pub fn spawn(&mut self, task: T)
        requires
            old(self)@.wf(),
        ensures
            final(self)@ == old(self)@.spawned(task),
            final(self)@.wf(),
    {
        if self.open {
            self.queue.push_back(task);
            proof {
                self.submitted@ = self.submitted@.push(task);
                assert(self.submitted@ == self.taken@ + self.queue@);
            }
        }
    }

    /// Makes one more handle to the same pool.
    pub fn duplicate(&mut self)
        requires
            old(self)@.wf(),
            old(self)@.handles >= 1,
            old(self)@.handles < usize::MAX,
        ensures
            final(self)@ == old(self)@.duplicated(),
            final(self)@.wf(),
    {
        self.handles = self.handles + 1;
    }

    /// Discards one handle. Only the last one tears the pool down: it closes
    /// the producing end, and its caller must then join every worker.
    pub fn discard(&mut self) -> (r: Teardown)
        requires
            old(self)@.wf(),
            old(self)@.handles >= 1,
        ensures
            final(self)@ == old(self)@.discarded(),
            final(self)@.wf(),
            r == Teardown::Keep <==> old(self)@.handles > 1,
            r == Teardown::CloseThenJoin <==> old(self)@.handles == 1,
            r == Teardown::CloseThenJoin ==> !final(self)@.open,
    {
        if self.handles > 1 {
            self.handles = self.handles - 1;
            Teardown::Keep
        } else {
            self.handles = 0;
            self.open = false;
            Teardown::CloseThenJoin
        }
    }

    /// How many workers the pool was built with.
    pub fn thread_count(&self) -> (r: usize)
        ensures
            r == self@.workers.len(),
    {
        self.workers.len()
    }

    /// How many handles are alive.
    pub fn handle_count(&self) -> (r: usize)
        ensures
            r == self@.handles,
    {
        self.handles
    }

    /// Whether the producing end of the queue is still open.
    pub fn is_open(&self) -> (r: bool)
        ensures
            r == self@.open,
    {
        self.open
    }

    /// How many delivered tasks wait in the queue.
    pub fn queued(&self) -> (r: usize)
        ensures
            r == self@.queue.len(),
    {
        self.queue.len()
    }

    /// The state of worker `worker`.
    pub fn worker_state(&self, worker: usize) -> (r: WorkerState)
        requires
            worker < self@.workers.len(),
        ensures
            r == self@.workers[worker as int],
    {
        self.workers[worker]
    }

    /// How many workers are in state `s`.
    fn count_workers(&self, s: WorkerState) -> (r: usize)
        ensures
            r == self@.count(s),
    {
        let mut c: usize = 0;
        let mut i: usize = 0;
        while i < self.workers.len()
            invariant
                i <= self.workers@.len(),
                c == count_state(self.workers@.subrange(0, i as int), s),
                c <= i,
            decreases self.workers.len() - i,
        {
            assert(self.workers@.subrange(0, i + 1).drop_last() == self.workers@.subrange(0, i as int));
            if self.workers[i] == s {
                c = c + 1;
            }
            i = i + 1;
        }
        assert(self.workers@.subrange(0, i as int) == self.workers@);
        c
    }

    /// How many workers still serve the queue.
    pub fn live_workers(&self) -> (r: usize)
        requires
            self@.wf(),
        ensures
            r == self@.live(),
    {
        let w = self.count_workers(WorkerState::Waiting);
        let e = self.count_workers(WorkerState::Executing);
        let n = self.workers.len();
        proof {
            lemma_count_bound(self@.workers, WorkerState::Waiting, WorkerState::Executing);
        }
        w + e
    }

    /// How many workers died of a fault; each of them is reported as an
    /// abnormal exit when it is joined.
    pub fn abnormal_exits(&self) -> (r: usize)
        ensures
            r == self@.count(WorkerState::Faulted),
    {
        self.count_workers(WorkerState::Faulted)
    }

    /// Whether the last handle is gone and every worker has left its loop.
    pub fn is_torn_down(&self) -> (r: bool)
        ensures
            r == self@.torn_down(),
    {
        if self.handles > 0 {
            return false;
        }
        let mut i: usize = 0;
        while i < self.workers.len()
            invariant
                i <= self.workers@.len(),
                forall|k: int| 0 <= k < i ==> !is_live(#[trigger] self.workers@[k]),
            decreases self.workers.len() - i,
        {
            let w = self.workers[i];
            if w == WorkerState::Waiting || w == WorkerState::Executing {
                assert(is_live(self@.workers[i as int]));
                return false;
            }
            i = i + 1;
        }
        true
    }


    pub fn finish_task(&mut self, worker: usize)
        requires
            old(self)@.wf(),
            worker < old(self)@.workers.len(),
            old(self)@.workers[worker as int] == WorkerState::Executing,
        ensures
            final(self)@ == old(self)@.finished_by(worker as int),
            final(self)@.wf(),
    {
        let ghost v = self@;
        self.workers.set(worker, WorkerState::Waiting);
        proof {
            self.finished@ = self.finished@ + 1;
            lemma_count_update(v.workers, worker as int, WorkerState::Waiting, WorkerState::Executing);
            lemma_count_update(v.workers, worker as int, WorkerState::Waiting, WorkerState::Faulted);
            lemma_count_update(v.workers, worker as int, WorkerState::Waiting, WorkerState::Terminated);
        }
    }

    /// The task of worker `worker` raised an unhandled fault: that worker is
    /// gone for good, and nothing else changes.
    pub fn fault_task(&mut self, worker: usize)
        requires
            old(self)@.wf(),
            worker < old(self)@.workers.len(),
            old(self)@.workers[worker as int] == WorkerState::Executing,
        ensures
            final(self)@ == old(self)@.faulted(worker as int),
            final(self)@.wf(),
    {
        let ghost v = self@;
        self.workers.set(worker, WorkerState::Faulted);
        proof {
            lemma_count_update(v.workers, worker as int, WorkerState::Faulted, WorkerState::Executing);
            lemma_count_update(v.workers, worker as int, WorkerState::Faulted, WorkerState::Faulted);
            lemma_count_update(v.workers, worker as int, WorkerState::Faulted, WorkerState::Terminated);
        }
    }
}

/// One receive by worker `worker`: the oldest task, if there is one;
/// `Ok(None)` while the queue is empty but open, so the worker blocks and
/// asks again; `Err(RecvError)` once it is closed and empty, after which
/// the worker has left its loop.
pub fn get_task<T>(pool: &mut Pool<T>, worker: usize) -> (r: Result<Option<T>, RecvError>)
    requires
        old(pool)@.wf(),
        worker < old(pool)@.workers.len(),
        old(pool)@.workers[worker as int] == WorkerState::Waiting,
    ensures
        final(pool)@.wf(),
        old(pool)@.queue.len() > 0 ==> r == Ok::<Option<T>, RecvError>(Some(old(pool)@.queue[0]))
            && final(pool)@ == old(pool)@.took(worker as int),
        old(pool)@.queue.len() == 0 && old(pool)@.open ==> r == Ok::<Option<T>, RecvError>(None)
            && final(pool)@ == old(pool)@,
        old(pool)@.queue.len() == 0 && !old(pool)@.open ==> r == Err::<Option<T>, RecvError>(
            RecvError,
        ) && final(pool)@ == old(pool)@.terminated(worker as int),
{
    let ghost v = pool@;
    match pool.queue.pop_front() {
        Some(task) => {
            pool.workers.set(worker, WorkerState::Executing);
            proof {
                pool.taken@ = pool.taken@.push(task);
                assert(pool.queue@ == v.queue.drop_first());
                assert(pool.taken@ + pool.queue@ == v.taken + v.queue);
                lemma_count_update(v.workers, worker as int, WorkerState::Executing, WorkerState::Executing);
                lemma_count_update(v.workers, worker as int, WorkerState::Executing, WorkerState::Faulted);
                lemma_count_update(v.workers, worker as int, WorkerState::Executing, WorkerState::Terminated);
            }
            Ok(Some(task))
        },
        None => {
            if pool.open {
                Ok(None)
            } else {
                pool.workers.set(worker, WorkerState::Terminated);
                proof {
                    lemma_count_update(v.workers, worker as int, WorkerState::Terminated, WorkerState::Executing);
                    lemma_count_update(v.workers, worker as int, WorkerState::Terminated, WorkerState::Faulted);
                    lemma_count_update(v.workers, worker as int, WorkerState::Terminated, WorkerState::Terminated);
                }
                Err(RecvError)
            }
        },
    }
}

} // verus!
