//! Task queue: a FIFO, single-consumer execution pipeline.
//!
//! Submitted units of work run strictly one at a time, in submission order,
//! while the submitting side keeps making progress on other work. This module
//! is the verified state model of that pipeline: tasks are labels chosen by
//! the caller, submission appends to the pending queue, and the single
//! executor consumes the front of the queue, never reordering and never
//! running two tasks at once. Waiting for the queue to drain is modeled the
//! way the executable pipeline does it: a sentinel task is enqueued, and its
//! completion implies that everything submitted before it has completed.

use vstd::prelude::*;

verus! {

/// The abstract state of a task queue: what has been submitted and not yet
/// run (front first), and what has run, in completion order.
#[verifier::ext_equal]
pub struct QueueView {
    pub pending: Seq<u64>,
    pub completed: Seq<u64>,
}

/// One executor step: the front pending task completes; an empty queue stays
/// put.
pub open spec fn queue_step(q: QueueView) -> QueueView {
    if q.pending.len() == 0 {
        q
    } else {
        QueueView { pending: q.pending.drop_first(), completed: q.completed.push(q.pending[0]) }
    }
}

/// `k` executor steps.
pub open spec fn queue_run(q: QueueView, k: nat) -> QueueView
    decreases k,
{
    if k == 0 {
        q
    } else {
        queue_step(queue_run(q, (k - 1) as nat))
    }
}

/// A queue of tasks that run in sequence without blocking the submitter.
pub struct TaskQueue {
    pending: Vec<u64>,
    completed: Vec<u64>,
}

impl View for TaskQueue {
    type V = QueueView;

    closed spec fn view(&self) -> QueueView {
        QueueView { pending: self.pending@, completed: self.completed@ }
    }
}

impl TaskQueue {
    /// Creates an empty queue; no task runs until one is submitted.
    pub fn new() -> (q: TaskQueue)
        ensures
            q@.pending == Seq::<u64>::empty(),
            q@.completed == Seq::<u64>::empty(),
    {
        TaskQueue { pending: Vec::new(), completed: Vec::new() }
    }

    /// Submits a task. Returns immediately: the task is only appended to the
    /// pending queue, behind everything submitted earlier.
    pub fn add_task(&mut self, task: u64)
        ensures
            final(self)@.pending == old(self)@.pending.push(task),
            final(self)@.completed == old(self)@.completed,
    {
        self.pending.push(task);
    }

    /// The executor consumes the front pending task, which completes before
    /// any later submission runs.
    pub fn run_next(&mut self) -> (r: Option<u64>)
        ensures
            final(self)@ == queue_step(old(self)@),
            old(self)@.pending.len() == 0 ==> r is None && final(self)@ == old(self)@,
            old(self)@.pending.len() > 0 ==> r == Some(old(self)@.pending[0])
                && final(self)@.pending == old(self)@.pending.drop_first()
                && final(self)@.completed == old(self)@.completed.push(old(self)@.pending[0]),
    {
        if self.pending.len() == 0 {
            proof {
                assert(self@ =~= queue_step(old(self)@));
            }
            None
        } else {
            let task = self.pending.remove(0);
            self.completed.push(task);
            proof {
                assert(old(self)@.pending.remove(0) =~= old(self)@.pending.drop_first());
                assert(self@ =~= queue_step(old(self)@));
            }
            Some(task)
        }
    }

    /// Drains the queue: every pending task completes, in submission order,
    /// after everything that had completed before.
    pub fn run_all(&mut self)
        ensures
            final(self)@.pending == Seq::<u64>::empty(),
            final(self)@.completed == old(self)@.completed + old(self)@.pending,
    {
        proof {
            assert(old(self)@.completed + old(self)@.pending =~= self@.completed + self@.pending);
        }
        while self.pending.len() > 0
            invariant
                self@.completed + self@.pending == old(self)@.completed + old(self)@.pending,
            decreases self@.pending.len(),
        {
            let ghost before = self@;
            self.run_next();
            proof {
                assert(self@.completed + self@.pending =~= before.completed + before.pending);
            }
        }
        proof {
            assert(self@.completed + self@.pending =~= self@.completed);
        }
    }

    /// Enqueues a sentinel task behind everything submitted so far. The
    /// executable pipeline then blocks until the sentinel completes, which by
    /// [`lemma_sentinel_completion`] happens only after every earlier task
    /// has completed.
    pub fn wait_for_queued_tasks(&mut self, sentinel: u64)
        ensures
            final(self)@.pending == old(self)@.pending.push(sentinel),
            final(self)@.completed == old(self)@.completed,
    {
        self.add_task(sentinel);
    }

    /// Whether a task has completed.
    pub fn is_completed(&self, task: u64) -> (r: bool)
        ensures
            r == self@.completed.contains(task),
    {
        let mut i: usize = 0;
        while i < self.completed.len()
            invariant
                i <= self@.completed.len(),
                forall|j: int| 0 <= j < i ==> self@.completed[j] != task,
            decreases self@.completed.len() - i,
        {
            if self.completed[i] == task {
                return true;
            }
            i = i + 1;
        }
        false
    }
}

/// After `k` executor steps, exactly the first `k` pending tasks (or all of
/// them, if fewer) have completed, in submission order, behind what had
/// completed before; the rest are still pending, in order.
pub proof fn lemma_run_prefix(tasks: Seq<u64>, completed0: Seq<u64>, k: nat)
    ensures
        ({
            let n: int = if k <= tasks.len() {
                k as int
            } else {
                tasks.len() as int
            };
            let q = queue_run(QueueView { pending: tasks, completed: completed0 }, k);
            q.completed == completed0 + tasks.take(n) && q.pending == tasks.skip(n)
        }),
    decreases k,
{
    let n: int = if k <= tasks.len() {
        k as int
    } else {
        tasks.len() as int
    };
    let q0 = QueueView { pending: tasks, completed: completed0 };
    if k == 0 {
        assert(completed0 + tasks.take(0) =~= completed0);
        assert(tasks.skip(0) =~= tasks);
    } else {
        lemma_run_prefix(tasks, completed0, (k - 1) as nat);
        let m: int = if k - 1 <= tasks.len() {
            k - 1
        } else {
            tasks.len() as int
        };
        let qm = queue_run(q0, (k - 1) as nat);
        if m < tasks.len() {
            assert(tasks.skip(m)[0] == tasks[m]);
            assert((completed0 + tasks.take(m)).push(tasks[m]) =~= completed0 + tasks.take(m + 1));
            assert(tasks.skip(m).drop_first() =~= tasks.skip(m + 1));
        } else {
            assert(qm.pending.len() == 0);
        }
    }
}

/// FIFO ordering: starting from an empty queue, after any number of executor
/// steps the completed tasks are exactly a prefix of the submission sequence,
/// in submission order.
pub proof fn lemma_fifo_order(tasks: Seq<u64>, k: nat)
    ensures
        ({
            let n: int = if k <= tasks.len() {
                k as int
            } else {
                tasks.len() as int
            };
            let q = queue_run(QueueView { pending: tasks, completed: Seq::empty() }, k);
            q.completed == tasks.take(n) && q.pending == tasks.skip(n)
        }),
{
    lemma_run_prefix(tasks, Seq::empty(), k);
    let n: int = if k <= tasks.len() {
        k as int
    } else {
        tasks.len() as int
    };
    assert(Seq::<u64>::empty() + tasks.take(n) =~= tasks.take(n));
}

/// The waiting contract: if the sentinel enqueued behind `tasks` has
/// completed after any number of executor steps, then every one of those
/// tasks has completed too. Blocking on the sentinel therefore returns only
/// after all earlier submissions are done.
pub proof fn lemma_sentinel_completion(
    tasks: Seq<u64>,
    completed0: Seq<u64>,
    sentinel: u64,
    k: nat,
)
    requires
        !tasks.contains(sentinel),
        !completed0.contains(sentinel),
    ensures
        ({
            let q = queue_run(
                QueueView { pending: tasks.push(sentinel), completed: completed0 },
                k,
            );
            q.completed.contains(sentinel) ==> forall|i: int|
                0 <= i < tasks.len() ==> q.completed.contains(#[trigger] tasks[i])
        }),
{
    let all = tasks.push(sentinel);
    lemma_run_prefix(all, completed0, k);
    let n: int = if k <= all.len() {
        k as int
    } else {
        all.len() as int
    };
    let q = queue_run(QueueView { pending: all, completed: completed0 }, k);
    if q.completed.contains(sentinel) {
        assert(q.completed == completed0 + all.take(n));
        if n <= tasks.len() {
            // The sentinel is last, so it cannot be in the first n tasks.
            let j = choose|j: int| 0 <= j < q.completed.len() && q.completed[j] == sentinel;
            if j < completed0.len() {
                assert(completed0[j] == sentinel);
            } else {
                assert(all.take(n)[j - completed0.len()] == sentinel);
                assert(tasks[j - completed0.len()] == sentinel);
            }
        }
        assert(n == tasks.len() + 1);
        assert(all.take(n) =~= all);
        assert forall|i: int| 0 <= i < tasks.len() implies q.completed.contains(
            #[trigger] tasks[i],
        ) by {
            assert(q.completed[completed0.len() + i] == all[i]);
        }
    }
}

} // verus!
