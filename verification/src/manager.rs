//! The ready queue and its stride scheduler.
use std::collections::VecDeque;
use vstd::prelude::*;

use crate::config::BIG_STRIDE;
use crate::task::{is_live, TaskState, TaskStatus, TaskTable};

verus! {

/// The stride of the task `pid` in `tasks`.
pub open spec fn stride_of(tasks: Seq<Option<TaskState>>, pid: usize) -> u64 {
    tasks[pid as int].unwrap().stride
}

/// The scheduler may pick task `pid`: it is ready to run.
pub open spec fn eligible(tasks: Seq<Option<TaskState>>, pid: usize) -> bool {
    tasks[pid as int].unwrap().status == TaskStatus::Ready
}

/// Among the first `n` entries of the queue `q`, position `i` is the first
/// one that holds the smallest stride of an eligible task.
pub open spec fn first_min_in(
    q: Seq<usize>,
    tasks: Seq<Option<TaskState>>,
    n: int,
    i: int,
) -> bool {
    &&& 0 <= i < n
    &&& eligible(tasks, q[i])
    &&& forall|j: int|
        #![trigger q[j]]
        0 <= j < i && eligible(tasks, q[j]) ==> stride_of(tasks, q[j]) > stride_of(tasks, q[i])
    &&& forall|j: int|
        #![trigger q[j]]
        i < j < n && eligible(tasks, q[j]) ==> stride_of(tasks, q[j]) >= stride_of(tasks, q[i])
}

/// The position in the queue that the scheduler picks: the first position
/// of the smallest stride among ready tasks, or the front of the queue
/// when no queued task is ready.
pub open spec fn pick_index(q: Seq<usize>, tasks: Seq<Option<TaskState>>) -> int {
    if exists|i: int| first_min_in(q, tasks, q.len() as int, i) {
        choose|i: int| first_min_in(q, tasks, q.len() as int, i)
    } else {
        0
    }
}

/// A task after being picked: its stride advanced by its pass.
pub open spec fn advanced(t: TaskState) -> TaskState {
    TaskState { stride: (t.stride + BIG_STRIDE / t.priority) as u64, ..t }
}

/// Every entry of `q` names a task of `tasks`.
pub open spec fn queue_live(q: Seq<usize>, tasks: Seq<Option<TaskState>>) -> bool {
    forall|j: int| 0 <= j < q.len() ==> #[trigger] is_live(tasks, q[j] as int)
}

/// `fetch` can run on `q` and `tasks` without a division by zero or an
/// overflow of the picked task's stride.
pub open spec fn fetch_ok(q: Seq<usize>, tasks: Seq<Option<TaskState>>) -> bool {
    &&& queue_live(q, tasks)
    &&& q.len() > 0 ==> {
        let t = tasks[q[pick_index(q, tasks)] as int].unwrap();
        &&& t.priority > 0
        &&& t.stride + BIG_STRIDE / t.priority <= u64::MAX
    }
}

/// The first minimum is unique.
pub proof fn lemma_first_min_unique(
    q: Seq<usize>,
    tasks: Seq<Option<TaskState>>,
    n: int,
    i: int,
    k: int,
)
    requires
        first_min_in(q, tasks, n, i),
        first_min_in(q, tasks, n, k),
    ensures
        i == k,
{
    if i < k {
        assert(eligible(tasks, q[i]));
    } else if k < i {
        assert(eligible(tasks, q[k]));
    }
}

/// The position picked is in the queue.
pub proof fn lemma_pick_index_bounds(q: Seq<usize>, tasks: Seq<Option<TaskState>>)
    requires
        q.len() > 0,
    ensures
        0 <= pick_index(q, tasks) < q.len(),
{
}

/// A first-order description of the pick: the first minimum when one exists.
pub proof fn lemma_pick_index_is(q: Seq<usize>, tasks: Seq<Option<TaskState>>, i: int)
    requires
        first_min_in(q, tasks, q.len() as int, i),
    ensures
        pick_index(q, tasks) == i,
{
    let c = choose|c: int| first_min_in(q, tasks, q.len() as int, c);
    lemma_first_min_unique(q, tasks, q.len() as int, i, c);
}

/// The ready queue: pids of the tasks waiting to run, in arrival order.
pub struct TaskManager {
    pub ready_queue: VecDeque<usize>,
}

impl View for TaskManager {
    type V = Seq<usize>;

    open spec fn view(&self) -> Seq<usize> {
        self.ready_queue@
    }
}

impl TaskManager {
    /// An empty ready queue.
    pub fn new() -> (m: Self)
        ensures
            m@ == Seq::<usize>::empty(),
    {
        TaskManager { ready_queue: VecDeque::new() }
    }

    /// Puts task `pid` at the back of the ready queue.
    pub fn add(&mut self, pid: usize)
        ensures
            final(self)@ == old(self)@.push(pid),
    {
        self.ready_queue.push_back(pid);
    }

    /// Takes a task out of the ready queue for the stride scheduler: the
    /// ready task with the smallest stride (the first one on a tie), or the
    /// front of the queue when no queued task is ready. The task taken has
    /// its stride advanced by `BIG_STRIDE / priority`.
    pub fn fetch(&mut self, tasks: &mut TaskTable) -> (picked: Option<usize>)
        requires
            fetch_ok(old(self)@, old(tasks)@),
        ensures
            match picked {
                None => {
                    &&& old(self)@.len() == 0
                    &&& final(self)@ == old(self)@
                    &&& final(tasks)@ == old(tasks)@
                },
                Some(pid) => {
                    let i = pick_index(old(self)@, old(tasks)@);
                    &&& old(self)@.len() > 0
                    &&& pid == old(self)@[i]
                    &&& final(self)@ == old(self)@.remove(i)
                    &&& final(tasks)@ == old(tasks)@.update(
                        pid as int,
                        Some(advanced(old(tasks)@[pid as int].unwrap())),
                    )
                },
            },
    {
        let ghost q = self.ready_queue@;
        let ghost ts = tasks@;
        let mut min_stride: Option<u64> = None;
        let mut min_idx: usize = 0;
        let n = self.ready_queue.len();
        let mut idx: usize = 0;
        while idx < n
            invariant
                0 <= idx <= n,
                n == q.len(),
                self.ready_queue@ == q,
                tasks@ == ts,
                queue_live(q, ts),
                min_stride matches Some(m) ==> {
                    &&& first_min_in(q, ts, idx as int, min_idx as int)
                    &&& stride_of(ts, q[min_idx as int]) == m
                },
                min_stride is None ==> {
                    &&& min_idx == 0
                    &&& forall|j: int| 0 <= j < idx ==> !eligible(ts, #[trigger] q[j])
                },
            decreases n - idx,
        {
            let pid = self.ready_queue[idx];
            assert(is_live(ts, q[idx as int] as int));
            let task = tasks.get(pid);
            if task.status == TaskStatus::Ready {
                let smaller = match min_stride {
                    Some(m) => task.stride < m,
                    None => true,
                };
                if smaller {
                    min_idx = idx;
                    min_stride = Some(task.stride);
                }
            }
            idx = idx + 1;
        }
        proof {
            if min_stride is Some {
                lemma_pick_index_is(q, ts, min_idx as int);
            } else {
                assert forall|i: int| !first_min_in(q, ts, q.len() as int, i) by {
                    if 0 <= i < q.len() {
                        assert(!eligible(ts, q[i]));
                    }
                }
            }
        }
        if min_idx < self.ready_queue.len() {
            let pid = self.ready_queue[min_idx];
            assert(is_live(ts, q[min_idx as int] as int));
            let mut task = tasks.take(pid);
            task.stride = task.stride + BIG_STRIDE / task.priority;
            tasks.put(pid, task);
        } else {
            assert(q.len() == 0);
        }
        self.ready_queue.remove(min_idx)
    }
}

} // verus!
