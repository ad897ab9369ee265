//! The kernel's process state: the task table, the task running on the
//! processor and the ready queue, with the operations the process system
//! calls are built on. Each operation is specified by a transition of the
//! mathematical model `KernelState`.
use vstd::prelude::*;

use crate::config::{
    BIG_STRIDE, DEFAULT_PRIORITY, INITPROC_PID, KERNEL_STACK_SIZE, MAX_SYSCALL_NUM, PAGE_SIZE, TRAMPOLINE,
};
use crate::manager::{advanced, fetch_ok, pick_index, TaskManager};
use crate::mm::{
    ceil, ceil_vpn, floor, floor_vpn, heap_found, map_range, range_free, range_mapped, unmap_range,
    MemorySet, Page, HEAP_PERM, VA_RANGE,
};
use crate::task::{is_live, AppImage, TaskControlBlock, TaskState, TaskStatus, TaskTable};
use crate::trap_context::{app_init_state, lemma_user_mode_status, returns_to_user, TrapContext, TrapState};

verus! {

/// The mathematical model of the kernel's process state.
pub struct KernelState {
    /// Tasks by pid; `None` once reaped.
    pub tasks: Seq<Option<TaskState>>,
    /// The task running on the processor.
    pub current: Option<usize>,
    /// The ready queue, front first.
    pub ready: Seq<usize>,
    /// Token of the kernel address space.
    pub kernel_satp: u64,
    /// Address of the kernel's trap handler.
    pub trap_handler: u64,
}

/// The task with pid `pid`.
pub open spec fn task_of(s: KernelState, pid: int) -> TaskState {
    s.tasks[pid].unwrap()
}

/// The pid of the running task.
pub open spec fn cur(s: KernelState) -> int {
    s.current.unwrap() as int
}

/// Top of the kernel stack with identifier `id` (a task's kernel stack has
/// the task's pid as identifier): stacks lie below the trampoline, each
/// followed by a guard page.
pub open spec fn kstack_top(id: int) -> int {
    TRAMPOLINE - id * (KERNEL_STACK_SIZE + PAGE_SIZE)
}

/// `n` pids can be handed out: they fit a `usize` and `n` kernel stacks
/// fit below the trampoline.
pub open spec fn pid_space_ok(n: int) -> bool {
    &&& n <= usize::MAX
    &&& n * (KERNEL_STACK_SIZE + PAGE_SIZE) <= TRAMPOLINE
}

/// `c` is a child of `p` whose parent link points back to `p`.
pub open spec fn child_ok(s: KernelState, p: int, c: usize) -> bool {
    &&& is_live(s.tasks, c as int)
    &&& task_of(s, c as int).parent == Some(p as usize)
}

/// `q` is a live task, older than `p`, that lists `p` among its children.
pub open spec fn parent_ok(s: KernelState, p: int, q: usize) -> bool {
    &&& q < p
    &&& is_live(s.tasks, q as int)
    &&& task_of(s, q as int).children.contains(p as usize)
}

/// The invariant of a single live task.
pub open spec fn task_ok(s: KernelState, p: int) -> bool {
    let t = task_of(s, p);
    &&& t.pid == p
    &&& t.priority > 0
    &&& t.heap_bottom <= t.program_brk <= i64::MAX
    &&& t.syscall_times.len() == MAX_SYSCALL_NUM
    &&& t.trap_cx.x.len() == 32
    &&& (t.parent matches Some(q) ==> parent_ok(s, p, q))
    &&& (t.status == TaskStatus::Zombie ==> t.children.len() == 0)
    &&& t.children.no_duplicates()
    &&& forall|j: int| 0 <= j < t.children.len() ==> child_ok(s, p, #[trigger] t.children[j])
}

/// The running task is live and marked running.
pub open spec fn current_ok(s: KernelState) -> bool {
    s.current matches Some(c) ==> {
        &&& is_live(s.tasks, c as int)
        &&& task_of(s, c as int).status == TaskStatus::Running
    }
}

/// The ready queue holds distinct live tasks, all marked ready.
pub open spec fn ready_ok(s: KernelState) -> bool {
    &&& s.ready.no_duplicates()
    &&& forall|i: int|
        0 <= i < s.ready.len() ==> {
            &&& is_live(s.tasks, #[trigger] s.ready[i] as int)
            &&& task_of(s, s.ready[i] as int).status == TaskStatus::Ready
        }
}

/// The invariant of the kernel's process state.
pub open spec fn wf_state(s: KernelState) -> bool {
    &&& pid_space_ok(s.tasks.len() as int)
    &&& is_live(s.tasks, INITPROC_PID as int)
    &&& task_of(s, INITPROC_PID as int).status != TaskStatus::Zombie
    &&& forall|p: int| #[trigger] is_live(s.tasks, p) ==> task_ok(s, p)
    &&& current_ok(s)
    &&& ready_ok(s)
}

/// `s` with task `pid` replaced by `t`.
pub open spec fn with_task(s: KernelState, pid: int, t: TaskState) -> KernelState {
    KernelState { tasks: s.tasks.update(pid, Some(t)), ..s }
}

/// The processor picks the next task from the ready queue, if there is one,
/// and runs it.
pub open spec fn schedule(s: KernelState) -> KernelState {
    if s.ready.len() == 0 {
        s
    } else {
        let i = pick_index(s.ready, s.tasks);
        let p = s.ready[i];
        KernelState {
            tasks: s.tasks.update(
                p as int,
                Some(TaskState { status: TaskStatus::Running, ..advanced(task_of(s, p as int)) }),
            ),
            current: Some(p),
            ready: s.ready.remove(i),
            ..s
        }
    }
}

/// Scheduling from `s` neither divides by zero nor overflows a stride.
pub open spec fn schedule_ok(s: KernelState) -> bool {
    fetch_ok(s.ready, s.tasks)
}

/// The running task gives up the processor and goes to the back of the
/// ready queue.
pub open spec fn suspend(s: KernelState) -> KernelState {
    let c = cur(s);
    KernelState {
        tasks: s.tasks.update(c, Some(TaskState { status: TaskStatus::Ready, ..task_of(s, c) })),
        current: None,
        ready: s.ready.push(c as usize),
        ..s
    }
}

/// All syscall counters at zero.
pub open spec fn zero_counts() -> Seq<u32> {
    Seq::new(MAX_SYSCALL_NUM as nat, |i: int| 0u32)
}

/// The initial process, created from `image`, with pid `INITPROC_PID`.
pub open spec fn initproc_task(image: AppImage, kernel_satp: u64, trap_handler: u64, sstatus: u64) -> TaskState {
    TaskState {
        pid: INITPROC_PID,
        status: TaskStatus::Ready,
        parent: None,
        children: Seq::empty(),
        exit_code: 0,
        memory: image.memory_set@,
        heap: image.memory_set.heap(),
        trap_cx: app_init_state(
            sstatus,
            image.entry_point,
            image.user_sp,
            kernel_satp,
            kstack_top(INITPROC_PID as int) as u64,
            trap_handler,
        ),
        base_size: image.user_sp,
        heap_bottom: image.user_sp,
        program_brk: image.user_sp,
        stride: 0,
        priority: DEFAULT_PRIORITY,
        syscall_times: zero_counts(),
        kernel_time: 0,
        user_time: 0,
    }
}

/// The process state right after boot: the initial process in the ready
/// queue and nothing running.
pub open spec fn boot_state(image: AppImage, kernel_satp: u64, trap_handler: u64, sstatus: u64) -> KernelState {
    KernelState {
        tasks: seq![Some(initproc_task(image, kernel_satp, trap_handler, sstatus))],
        current: None,
        ready: seq![INITPROC_PID],
        kernel_satp,
        trap_handler,
    }
}

/// The ready queue keeps its invariant when it is unchanged and every
/// ready task stays live and ready.
proof fn lemma_ready_kept(s: KernelState, s2: KernelState)
    requires
        ready_ok(s),
        s2.ready == s.ready,
        forall|p: int|
            #[trigger] is_live(s.tasks, p) && task_of(s, p).status == TaskStatus::Ready ==> is_live(
                s2.tasks,
                p,
            ) && task_of(s2, p).status == TaskStatus::Ready,
    ensures
        ready_ok(s2),
{
    assert forall|k: int| 0 <= k < s2.ready.len() implies {
        &&& is_live(s2.tasks, #[trigger] s2.ready[k] as int)
        &&& task_of(s2, s2.ready[k] as int).status == TaskStatus::Ready
    } by {
        assert(is_live(s.tasks, s.ready[k] as int));
    }
}

/// Scheduling keeps the invariant.
pub proof fn lemma_schedule_wf(s: KernelState)
    requires
        wf_state(s),
        s.current is None,
    ensures
        wf_state(schedule(s)),
{
    if s.ready.len() > 0 {
        let i = pick_index(s.ready, s.tasks);
        let p = s.ready[i];
        let s2 = schedule(s);
        assert(is_live(s.tasks, p as int));
        assert forall|q: int| #[trigger] is_live(s2.tasks, q) implies task_ok(s2, q) by {
            assert(is_live(s.tasks, q));
            assert(task_ok(s, q));
            let t = task_of(s2, q);
            assert forall|j: int| 0 <= j < t.children.len() implies child_ok(s2, q, #[trigger] t.children[j]) by {
                assert(child_ok(s, q, task_of(s, q).children[j]));
            }
        }
        assert forall|k: int| 0 <= k < s2.ready.len() implies {
            &&& is_live(s2.tasks, #[trigger] s2.ready[k] as int)
            &&& task_of(s2, s2.ready[k] as int).status == TaskStatus::Ready
        } by {
            let kk = if k < i { k } else { k + 1 };
            assert(s2.ready[k] == s.ready[kk]);
            assert(s.ready[kk] != s.ready[i]);
        }
    }
}

/// Suspending the running task keeps the invariant.
pub proof fn lemma_suspend_wf(s: KernelState)
    requires
        wf_state(s),
        s.current is Some,
    ensures
        wf_state(suspend(s)),
{
    let c = cur(s);
    let s2 = suspend(s);
    assert forall|q: int| #[trigger] is_live(s2.tasks, q) implies task_ok(s2, q) by {
        assert(is_live(s.tasks, q));
        assert(task_ok(s, q));
        let t = task_of(s2, q);
        assert forall|j: int| 0 <= j < t.children.len() implies child_ok(s2, q, #[trigger] t.children[j]) by {
            assert(child_ok(s, q, task_of(s, q).children[j]));
        }
    }
    assert(!s.ready.contains(c as usize)) by {
        if s.ready.contains(c as usize) {
            let k = choose|k: int| 0 <= k < s.ready.len() && s.ready[k] == c as usize;
            assert(task_of(s, s.ready[k] as int).status == TaskStatus::Ready);
        }
    }
    assert forall|k: int| 0 <= k < s2.ready.len() implies {
        &&& is_live(s2.tasks, #[trigger] s2.ready[k] as int)
        &&& task_of(s2, s2.ready[k] as int).status == TaskStatus::Ready
    } by {
        if k < s.ready.len() {
            assert(s2.ready[k] == s.ready[k]);
        }
    }
}

/// `p` occurs in `s`.
pub open spec fn in_seq(s: Seq<usize>, p: int) -> bool {
    exists|j: int| 0 <= j < s.len() && s[j] as int == p
}

/// The running task exits with `exit_code`: it becomes a zombie that keeps
/// its exit code for its parent, releases its user pages, and hands its
/// children over to the initial process. Nothing runs afterwards.
pub open spec fn exit_state(s: KernelState, exit_code: i32) -> KernelState {
    let c = cur(s);
    let t = task_of(s, c);
    let init = task_of(s, INITPROC_PID as int);
    KernelState {
        tasks: Seq::new(
            s.tasks.len(),
            |p: int|
                if p == c {
                    Some(
                        TaskState {
                            status: TaskStatus::Zombie,
                            exit_code,
                            children: Seq::empty(),
                            memory: Map::empty(),
                            heap: None,
                            ..t
                        },
                    )
                } else if p == INITPROC_PID {
                    Some(TaskState { children: init.children + t.children, ..init })
                } else if in_seq(t.children, p) {
                    Some(TaskState { parent: Some(INITPROC_PID), ..task_of(s, p) })
                } else {
                    s.tasks[p]
                },
        ),
        current: None,
        ..s
    }
}

/// Exiting keeps the invariant.
pub proof fn lemma_exit_wf(s: KernelState, exit_code: i32)
    requires
        wf_state(s),
        s.current is Some,
        cur(s) != INITPROC_PID,
    ensures
        wf_state(exit_state(s, exit_code)),
{
    let c = cur(s);
    let t = task_of(s, c);
    let init = task_of(s, INITPROC_PID as int);
    let s2 = exit_state(s, exit_code);
    assert(task_ok(s, c));
    assert(task_ok(s, INITPROC_PID as int));
    assert forall|x: usize| t.children.contains(x) implies {
        &&& is_live(s.tasks, x as int)
        &&& task_of(s, x as int).parent == Some(c as usize)
        &&& x as int > c
        &&& x != INITPROC_PID
    } by {
        let j = choose|j: int| 0 <= j < t.children.len() && t.children[j] == x;
        assert(child_ok(s, c, t.children[j]));
        assert(task_ok(s, x as int));
    }
    assert forall|x: usize| init.children.contains(x) implies {
        &&& is_live(s.tasks, x as int)
        &&& task_of(s, x as int).parent == Some(INITPROC_PID)
    } by {
        let j = choose|j: int| 0 <= j < init.children.len() && init.children[j] == x;
        assert(child_ok(s, INITPROC_PID as int, init.children[j]));
    }
    assert forall|q: int| #[trigger] is_live(s2.tasks, q) implies task_ok(s2, q) by {
        if q != c && q != INITPROC_PID && in_seq(t.children, q) {
            let j = choose|j: int| 0 <= j < t.children.len() && t.children[j] as int == q;
            assert(t.children.contains(t.children[j]));
        }
        assert(is_live(s.tasks, q));
        assert(task_ok(s, q));
        let tq = task_of(s2, q);
        let all = init.children + t.children;
        if let Some(pp) = tq.parent {
            if q == c {
                assert(parent_ok(s, c, pp));
                let i = choose|i: int| 0 <= i < task_of(s, pp as int).children.len()
                    && task_of(s, pp as int).children[i] == c as usize;
                if pp == INITPROC_PID {
                    assert(all[i] == c as usize);
                } else {
                    assert(!in_seq(t.children, pp as int)) by {
                        if in_seq(t.children, pp as int) {
                            let k = choose|k: int| 0 <= k < t.children.len() && t.children[k] as int == pp as int;
                            assert(t.children.contains(t.children[k]));
                        }
                    }
                }
                assert(task_of(s2, pp as int).children.contains(c as usize));
            } else if in_seq(t.children, q) {
                let k = choose|k: int| 0 <= k < t.children.len() && t.children[k] as int == q;
                assert(all[init.children.len() + k] == q as usize);
                assert(parent_ok(s2, q, pp));
            } else {
                assert(parent_ok(s, q, pp));
                let i = choose|i: int| 0 <= i < task_of(s, pp as int).children.len()
                    && task_of(s, pp as int).children[i] == q as usize;
                if pp as int == c {
                    assert(child_ok(s, c, task_of(s, c).children[i]));
                    assert(in_seq(t.children, q));
                } else if pp == INITPROC_PID {
                    assert(all[i] == q as usize);
                } else {
                    assert(task_of(s2, pp as int).children == task_of(s, pp as int).children);
                }
                assert(task_of(s2, pp as int).children.contains(q as usize));
            }
        }
        if q == INITPROC_PID {
            assert forall|a: int, b: int| 0 <= a < b < all.len() implies all[a] != all[b] by {
                if b < init.children.len() {
                } else if a >= init.children.len() {
                    assert(all[a] == t.children[a - init.children.len()]);
                    assert(all[b] == t.children[b - init.children.len()]);
                } else {
                    assert(init.children.contains(all[a]));
                    assert(all[b] == t.children[b - init.children.len()]);
                    assert(t.children.contains(all[b]));
                }
            }
            assert forall|j: int| 0 <= j < tq.children.len() implies child_ok(s2, q, #[trigger] tq.children[j]) by {
                if j < init.children.len() {
                    assert(all[j] == init.children[j]);
                    assert(init.children.contains(all[j]));
                } else {
                    assert(all[j] == t.children[j - init.children.len()]);
                    assert(t.children.contains(all[j]));
                }
            }
        } else if q != c {
            assert forall|j: int| 0 <= j < tq.children.len() implies child_ok(s2, q, #[trigger] tq.children[j]) by {
                let x = task_of(s, q).children[j];
                assert(child_ok(s, q, x));
                if in_seq(t.children, x as int) {
                    let i = choose|i: int| 0 <= i < t.children.len() && t.children[i] as int == x as int;
                    assert(t.children.contains(t.children[i]));
                    assert(task_of(s, x as int).parent == Some(c as usize));
                }
                assert(task_ok(s, x as int));
            }
        }
    }
    lemma_ready_kept(s, s2);
}

/// `s` with the running task replaced by `t`.
pub open spec fn with_current(s: KernelState, t: TaskState) -> KernelState {
    with_task(s, cur(s), t)
}

/// The task created by `fork` with pid `n`: a copy of the running task's
/// address space, trap context (but for its kernel stack), program size
/// and heap, with fresh scheduling state and no children.
pub open spec fn forked_child(s: KernelState, n: int) -> TaskState {
    let p = task_of(s, cur(s));
    TaskState {
        pid: n as usize,
        status: TaskStatus::Ready,
        parent: Some(cur(s) as usize),
        children: Seq::empty(),
        exit_code: 0,
        memory: p.memory,
        heap: p.heap,
        trap_cx: TrapState { kernel_sp: kstack_top(n) as u64, ..p.trap_cx },
        base_size: p.base_size,
        heap_bottom: p.heap_bottom,
        program_brk: p.program_brk,
        stride: 0,
        priority: DEFAULT_PRIORITY,
        syscall_times: zero_counts(),
        kernel_time: 0,
        user_time: 0,
    }
}

/// `s` with the new task `child`, of pid `s.tasks.len()`, added as the
/// last child of the running task.
pub open spec fn with_new_child(s: KernelState, child: TaskState) -> KernelState {
    let c = cur(s);
    let n = s.tasks.len();
    let p = task_of(s, c);
    KernelState {
        tasks: s.tasks.update(c, Some(TaskState { children: p.children.push(n as usize), ..p })).push(
            Some(child),
        ),
        ..s
    }
}

/// The running task forks: a child copy of it exists, not yet queued.
pub open spec fn fork_state(s: KernelState) -> KernelState {
    with_new_child(s, forked_child(s, s.tasks.len() as int))
}

/// The task spawned from `image` with pid `n`: the program's pages and
/// initial trap context, the running task's program size and heap, fresh
/// scheduling state.
pub open spec fn spawned_child(s: KernelState, n: int, image: AppImage, sstatus: u64) -> TaskState {
    let p = task_of(s, cur(s));
    TaskState {
        pid: n as usize,
        status: TaskStatus::Ready,
        parent: Some(cur(s) as usize),
        children: Seq::empty(),
        exit_code: 0,
        memory: image.memory_set@,
        heap: image.memory_set.heap(),
        trap_cx: app_init_state(
            sstatus,
            image.entry_point,
            image.user_sp,
            s.kernel_satp,
            kstack_top(n) as u64,
            s.trap_handler,
        ),
        base_size: p.base_size,
        heap_bottom: p.heap_bottom,
        program_brk: p.program_brk,
        stride: 0,
        priority: DEFAULT_PRIORITY,
        syscall_times: zero_counts(),
        kernel_time: 0,
        user_time: 0,
    }
}

/// The running task spawns a child running `image`; the child is queued.
pub open spec fn spawn_state(s: KernelState, image: AppImage, sstatus: u64) -> KernelState {
    let n = s.tasks.len() as int;
    let s1 = with_new_child(s, spawned_child(s, n, image, sstatus));
    KernelState { ready: s1.ready.push(n as usize), ..s1 }
}

/// The running task replaces its program by `image`.
pub open spec fn exec_state(s: KernelState, image: AppImage, sstatus: u64) -> KernelState {
    let c = cur(s);
    let t = task_of(s, c);
    with_current(
        s,
        TaskState {
            memory: image.memory_set@,
        heap: image.memory_set.heap(),
            base_size: image.user_sp,
            trap_cx: app_init_state(
                sstatus,
                image.entry_point,
                image.user_sp,
                s.kernel_satp,
                kstack_top(c) as u64,
                s.trap_handler,
            ),
            ..t
        },
    )
}

/// The running task collects its `j`-th child: the child leaves the list
/// of children and its slot is freed.
pub open spec fn reap_state(s: KernelState, j: int) -> KernelState {
    let c = cur(s);
    let t = task_of(s, c);
    let ch = t.children[j];
    KernelState {
        tasks: s.tasks.update(c, Some(TaskState { children: t.children.remove(j), ..t })).update(
            ch as int,
            None,
        ),
        ..s
    }
}

/// `b` differs from `a` only in fields that the invariant leaves free, and
/// satisfies the invariant's bounds on its own fields.
pub open spec fn same_links(a: TaskState, b: TaskState) -> bool {
    &&& a.pid == b.pid
    &&& a.parent == b.parent
    &&& a.children == b.children
    &&& a.priority > 0 ==> b.priority > 0
    &&& b.priority > 0
    &&& b.heap_bottom <= b.program_brk <= i64::MAX
    &&& a.syscall_times.len() == b.syscall_times.len()
    &&& b.trap_cx.x.len() == 32
    &&& a.status == b.status
}

/// Changing fields of a live task that the invariant does not constrain
/// keeps the invariant.
pub proof fn lemma_same_links_wf(s: KernelState, p: int, t: TaskState)
    requires
        wf_state(s),
        is_live(s.tasks, p),
        same_links(task_of(s, p), t),
    ensures
        wf_state(with_task(s, p, t)),
{
    let s2 = with_task(s, p, t);
    assert forall|q: int| #[trigger] is_live(s2.tasks, q) implies task_ok(s2, q) by {
        assert(is_live(s.tasks, q));
        assert(task_ok(s, q));
        let tq = task_of(s2, q);
        assert forall|j: int| 0 <= j < tq.children.len() implies child_ok(s2, q, #[trigger] tq.children[j]) by {
            assert(child_ok(s, q, task_of(s, q).children[j]));
        }
    }
    lemma_ready_kept(s, s2);
}

/// Adding a new child of the running task keeps the invariant.
pub proof fn lemma_new_child_wf(s: KernelState, child: TaskState)
    requires
        wf_state(s),
        s.current is Some,
        pid_space_ok(s.tasks.len() + 1int),
        child.pid == s.tasks.len(),
        child.parent == Some(cur(s) as usize),
        child.children.len() == 0,
        child.priority > 0,
        child.heap_bottom <= child.program_brk <= i64::MAX,
        child.syscall_times.len() == MAX_SYSCALL_NUM,
        child.trap_cx.x.len() == 32,
    ensures
        wf_state(with_new_child(s, child)),
{
    let c = cur(s);
    let n = s.tasks.len() as int;
    let s2 = with_new_child(s, child);
    assert(task_ok(s, c));
    assert(task_of(s, c).status == TaskStatus::Running);
    assert forall|q: int| #[trigger] is_live(s2.tasks, q) implies task_ok(s2, q) by {
        if q < n {
            assert(is_live(s.tasks, q));
            assert(task_ok(s, q));
            let tq = task_of(s2, q);
            if let Some(pp) = tq.parent {
                assert(parent_ok(s, q, pp));
                let i = choose|i: int| 0 <= i < task_of(s, pp as int).children.len()
                    && task_of(s, pp as int).children[i] == q as usize;
                assert(task_of(s2, pp as int).children[i] == q as usize);
                assert(parent_ok(s2, q, pp));
            }
            if q == c {
                let ch = task_of(s, c).children;
                assert forall|a: int, b: int| 0 <= a < b < tq.children.len() implies tq.children[a]
                    != tq.children[b] by {
                    if b == ch.len() {
                        assert(child_ok(s, c, ch[a]));
                    }
                }
                assert forall|j: int| 0 <= j < tq.children.len() implies child_ok(s2, q, #[trigger] tq.children[j]) by {
                    if j < ch.len() {
                        assert(child_ok(s, q, ch[j]));
                    }
                }
                assert(tq.children.no_duplicates());
            } else {
                assert forall|j: int| 0 <= j < tq.children.len() implies child_ok(s2, q, #[trigger] tq.children[j]) by {
                    assert(child_ok(s, q, task_of(s, q).children[j]));
                }
            }
        } else {
            assert(q == n);
            let ch = task_of(s2, c).children;
            assert(ch[ch.len() - 1] == n as usize);
            assert(parent_ok(s2, q, c as usize));
        }
    }
    lemma_ready_kept(s, s2);
}

/// Queueing a ready task that is not queued keeps the invariant.
pub proof fn lemma_enqueue_wf(s: KernelState, p: usize)
    requires
        wf_state(s),
        is_live(s.tasks, p as int),
        task_of(s, p as int).status == TaskStatus::Ready,
        !s.ready.contains(p),
    ensures
        wf_state(KernelState { ready: s.ready.push(p), ..s }),
{
    let s2 = KernelState { ready: s.ready.push(p), ..s };
    assert forall|q: int| #[trigger] is_live(s2.tasks, q) implies task_ok(s2, q) by {
        assert(task_ok(s, q));
        let tq = task_of(s2, q);
        assert forall|j: int| 0 <= j < tq.children.len() implies child_ok(s2, q, #[trigger] tq.children[j]) by {
            assert(child_ok(s, q, task_of(s, q).children[j]));
        }
    }
    assert forall|k: int| 0 <= k < s2.ready.len() implies {
        &&& is_live(s2.tasks, #[trigger] s2.ready[k] as int)
        &&& task_of(s2, s2.ready[k] as int).status == TaskStatus::Ready
    } by {
        if k < s.ready.len() {
            assert(s2.ready[k] == s.ready[k]);
        }
    }
}

/// The queue holds only tasks older than the newest pid.
pub proof fn lemma_ready_below_len(s: KernelState, n: usize)
    requires
        wf_state(s),
        n == s.tasks.len(),
    ensures
        !s.ready.contains(n),
{
    if s.ready.contains(n) {
        let k = choose|k: int| 0 <= k < s.ready.len() && s.ready[k] == n;
        assert(is_live(s.tasks, s.ready[k] as int));
    }
}

/// Reaping a zombie child keeps the invariant.
pub proof fn lemma_reap_wf(s: KernelState, j: int)
    requires
        wf_state(s),
        s.current is Some,
        0 <= j < task_of(s, cur(s)).children.len(),
        task_of(s, task_of(s, cur(s)).children[j] as int).status == TaskStatus::Zombie,
    ensures
        wf_state(reap_state(s, j)),
{
    let c = cur(s);
    let t = task_of(s, c);
    let ch = t.children[j];
    let s2 = reap_state(s, j);
    assert(task_ok(s, c));
    assert(child_ok(s, c, ch));
    assert(task_ok(s, ch as int));
    assert(ch as int != c);
    assert(ch != INITPROC_PID);
    assert(task_of(s, c).status == TaskStatus::Running);
    assert forall|q: int| #[trigger] is_live(s2.tasks, q) implies task_ok(s2, q) by {
        assert(is_live(s.tasks, q));
        assert(task_ok(s, q));
        let tq = task_of(s2, q);
        if let Some(pp) = tq.parent {
            assert(parent_ok(s, q, pp));
            let i = choose|i: int| 0 <= i < task_of(s, pp as int).children.len()
                && task_of(s, pp as int).children[i] == q as usize;
            if pp == ch {
                assert(task_of(s, ch as int).children.len() == 0);
            }
            if pp as int == c {
                assert(i != j);
                let k = if i < j { i } else { i - 1 };
                assert(task_of(s2, c).children[k] == q as usize);
            } else {
                assert(task_of(s2, pp as int).children[i] == q as usize);
            }
            assert(parent_ok(s2, q, pp));
        }
        if q == c {
            assert forall|i: int| 0 <= i < tq.children.len() implies child_ok(s2, q, #[trigger] tq.children[i]) by {
                let ii = if i < j { i } else { i + 1 };
                assert(tq.children[i] == t.children[ii]);
                assert(child_ok(s, q, t.children[ii]));
                assert(t.children[ii] != t.children[j]);
            }
            assert forall|a: int, b: int| 0 <= a < b < tq.children.len() implies tq.children[a]
                != tq.children[b] by {
                let aa = if a < j { a } else { a + 1 };
                let bb = if b < j { b } else { b + 1 };
                assert(tq.children[a] == t.children[aa]);
                assert(tq.children[b] == t.children[bb]);
            }
        } else {
            assert forall|i: int| 0 <= i < tq.children.len() implies child_ok(s2, q, #[trigger] tq.children[i]) by {
                assert(child_ok(s, q, task_of(s, q).children[i]));
            }
        }
    }
    lemma_ready_kept(s, s2);
}

/// The user pages of the running task.
pub open spec fn cur_memory(s: KernelState) -> Map<u64, Page> {
    task_of(s, cur(s)).memory
}

/// `s` with the running task's user pages replaced by `m`.
pub open spec fn with_memory(s: KernelState, m: Map<u64, Page>) -> KernelState {
    with_current(s, TaskState { memory: m, ..task_of(s, cur(s)) })
}

/// The pages that `unmap_consecutive_area(start, len)` covers.
pub open spec fn area_lo(start: int) -> int {
    floor_vpn(start)
}

/// The page just past those that `unmap_consecutive_area(start, len)` covers.
pub open spec fn area_hi(start: int, len: int) -> int {
    ceil_vpn(start + len)
}

/// The result of unmapping the pages that `[start, start + len)` touches
/// from the running task: all of them must be mapped, else nothing changes
/// and the result is -1.
pub open spec fn unmap_area_state(s: KernelState, start: int, len: int) -> (i64, KernelState) {
    let lo = area_lo(start);
    let hi = area_hi(start, len);
    if range_mapped(cur_memory(s), lo, hi) {
        (0i64, with_memory(s, unmap_range(cur_memory(s), lo, hi)))
    } else {
        (-1i64, s)
    }
}

/// The heap end that `sbrk(size)` asks for.
pub open spec fn brk_target(s: KernelState, size: i32) -> int {
    task_of(s, cur(s)).program_brk + size
}

/// Resizing the running task's heap area for `sbrk(size)` does not fail
/// an assertion: a shrink unmaps mapped pages within the area, a growth
/// maps free pages past its end.
pub open spec fn brk_resize_ok(s: KernelState, size: i32) -> bool {
    let t = task_of(s, cur(s));
    let target = brk_target(s, size);
    let ne = ceil_vpn(target);
    target >= t.heap_bottom && heap_found(t.heap, t.heap_bottom) ==> {
        let (st, e) = t.heap.unwrap();
        if size < 0 {
            &&& st <= ne <= e
            &&& range_mapped(t.memory, ne, e as int)
        } else {
            &&& st <= ne
            &&& e <= ne
            &&& range_free(t.memory, e as int, ne)
        }
    }
}

/// What `sbrk(size)` gives back and leaves: below the heap's bottom, or
/// without a heap area that starts at the heap's bottom, nothing (and no
/// change); otherwise the old end, with the heap end moved and the heap
/// area shrunk (its pages past the new end unmapped) or grown (the new
/// pages up to the new end mapped readable and writable).
pub open spec fn brk_state(s: KernelState, size: i32) -> (Option<u64>, KernelState) {
    let t = task_of(s, cur(s));
    let target = brk_target(s, size);
    if target < t.heap_bottom || !heap_found(t.heap, t.heap_bottom) {
        (None, s)
    } else {
        let (st, e) = t.heap.unwrap();
        let ne = ceil_vpn(target);
        let mem = if size < 0 {
            unmap_range(t.memory, ne, e as int)
        } else {
            map_range(t.memory, e as int, ne, HEAP_PERM)
        };
        (
            Some(t.program_brk),
            with_current(
                s,
                TaskState {
                    program_brk: target as u64,
                    memory: mem,
                    heap: Some((st, ne as u64)),
                    ..t
                },
            ),
        )
    }
}

/// Every task can be picked once more without its stride overflowing.
pub open spec fn strides_bounded(s: KernelState) -> bool {
    forall|p: int| #[trigger] is_live(s.tasks, p) ==> task_of(s, p).stride + BIG_STRIDE <= u64::MAX
}

/// With bounded strides, scheduling from `s`, after a yield, or after an
/// exit is free of overflow.
pub proof fn lemma_bounded_strides_schedule_ok(s: KernelState, exit_code: i32)
    requires
        wf_state(s),
        strides_bounded(s),
    ensures
        schedule_ok(s),
        s.current is Some ==> schedule_ok(suspend(s)),
        s.current is Some && cur(s) != INITPROC_PID ==> schedule_ok(exit_state(s, exit_code)),
{
    lemma_bounded_fetch_ok(s);
    if s.current is Some {
        lemma_suspend_wf(s);
        let s1 = suspend(s);
        assert forall|p: int| #[trigger] is_live(s1.tasks, p) implies task_of(s1, p).stride + BIG_STRIDE
            <= u64::MAX by {
            assert(is_live(s.tasks, p));
        }
        lemma_bounded_fetch_ok(s1);
        if cur(s) != INITPROC_PID {
            lemma_exit_wf(s, exit_code);
            let s2 = exit_state(s, exit_code);
            assert forall|p: int| #[trigger] is_live(s2.tasks, p) implies task_of(s2, p).stride
                + BIG_STRIDE <= u64::MAX by {
                assert(is_live(s.tasks, p));
            }
            lemma_bounded_fetch_ok(s2);
        }
    }
}

proof fn lemma_bounded_fetch_ok(s: KernelState)
    requires
        wf_state(s),
        strides_bounded(s),
    ensures
        schedule_ok(s),
{
    assert forall|j: int| 0 <= j < s.ready.len() implies #[trigger] is_live(s.tasks, s.ready[j] as int) by {
    }
    if s.ready.len() > 0 {
        crate::manager::lemma_pick_index_bounds(s.ready, s.tasks);
        let p = s.ready[pick_index(s.ready, s.tasks)] as int;
        assert(is_live(s.tasks, p));
        assert(task_ok(s, p));
        let t = task_of(s, p);
        assert(BIG_STRIDE / t.priority <= BIG_STRIDE) by (nonlinear_arith)
            requires
                t.priority > 0,
        ;
    }
}

/// The kernel's process state.
pub struct Kernel {
    /// All tasks, by pid.
    pub tasks: TaskTable,
    /// The task running on the processor.
    pub current: Option<usize>,
    /// The ready queue.
    pub manager: TaskManager,
    /// Token of the kernel address space.
    pub kernel_satp: u64,
    /// Address of the kernel's trap handler.
    pub trap_handler: u64,
}

impl View for Kernel {
    type V = KernelState;

    open spec fn view(&self) -> KernelState {
        KernelState {
            tasks: self.tasks@,
            current: self.current,
            ready: self.manager@,
            kernel_satp: self.kernel_satp,
            trap_handler: self.trap_handler,
        }
    }
}

/// Top of the kernel stack with identifier `id`.
pub fn kernel_stack_top(id: usize) -> (top: u64)
    requires
        pid_space_ok(id as int),
    ensures
        top == kstack_top(id as int),
{
    assert(id * (KERNEL_STACK_SIZE + PAGE_SIZE) <= TRAMPOLINE);
    TRAMPOLINE - (id as u64) * (KERNEL_STACK_SIZE + PAGE_SIZE)
}

impl Kernel {
    /// The invariant of the process state.
    pub open spec fn wf(&self) -> bool {
        wf_state(self@)
    }

    /// Boots the process state with the initial process loaded from
    /// `image`, given the kernel's address-space token, the trap handler's
    /// address and the value `sstatus` of the hart's status register. The
    /// initial process waits in the ready queue; its trap context saves
    /// `sstatus` with `SPP` set to user mode.
    pub fn new(image: AppImage, kernel_satp: u64, trap_handler: u64, sstatus: u64) -> (k: Self)
        requires
            image.user_sp <= i64::MAX,
        ensures
            k.wf(),
            k@ == boot_state(image, kernel_satp, trap_handler, sstatus),
            returns_to_user(task_of(k@, INITPROC_PID as int).trap_cx),
    {
        let ghost img = image;
        let user_sp = image.user_sp;
        let trap_cx = TrapContext::app_init_context(
            image.entry_point,
            user_sp,
            kernel_satp,
            kernel_stack_top(INITPROC_PID),
            trap_handler,
            sstatus,
        );
        let t = TaskControlBlock {
            pid: INITPROC_PID,
            status: TaskStatus::Ready,
            parent: None,
            children: Vec::new(),
            exit_code: 0,
            memory_set: image.memory_set,
            trap_cx,
            base_size: user_sp,
            heap_bottom: user_sp,
            program_brk: user_sp,
            stride: 0,
            priority: DEFAULT_PRIORITY,
            syscall_times: [0u32; MAX_SYSCALL_NUM],
            kernel_time: 0,
            user_time: 0,
        };
        assert(t.syscall_times@ =~= zero_counts());
        let ghost st = sstatus;
        assert(t@ == initproc_task(img, kernel_satp, trap_handler, st));
        let mut tasks = TaskTable::new();
        tasks.push(t);
        let mut manager = TaskManager::new();
        manager.add(INITPROC_PID);
        let k = Kernel { tasks, current: None, manager, kernel_satp, trap_handler };
        assert(k@.tasks =~= boot_state(img, kernel_satp, trap_handler, st).tasks);
        assert(k@.ready =~= seq![INITPROC_PID]);
        assert(k@ == boot_state(img, kernel_satp, trap_handler, st));
        proof {
            lemma_user_mode_status(sstatus);
        }
        k
    }

    /// Runs the next task: the scheduler takes a task out of the ready
    /// queue and the processor runs it. Nothing runs when the queue is empty.
    pub fn run_next(&mut self)
        requires
            old(self).wf(),
            old(self).current is None,
            schedule_ok(old(self)@),
        ensures
            final(self).wf(),
            final(self)@ == schedule(old(self)@),
    {
        proof {
            lemma_schedule_wf(old(self)@);
        }
        let picked = self.manager.fetch(&mut self.tasks);
        match picked {
            Some(pid) => {
                let mut t = self.tasks.take(pid);
                t.status = TaskStatus::Running;
                self.tasks.put(pid, t);
                self.current = Some(pid);
                assert(self@.tasks =~= schedule(old(self)@).tasks);
            },
            None => {},
        }
    }

    /// The running task goes back to the ready queue.
    pub fn suspend_current(&mut self)
        requires
            old(self).wf(),
            old(self).current is Some,
        ensures
            final(self).wf(),
            final(self)@ == suspend(old(self)@),
    {
        proof {
            lemma_suspend_wf(old(self)@);
        }
        let c = self.current.unwrap();
        let mut t = self.tasks.take(c);
        t.status = TaskStatus::Ready;
        self.tasks.put(c, t);
        self.manager.add(c);
        self.current = None;
        assert(self@.tasks =~= suspend(old(self)@).tasks);
    }

    /// The running task exits with `exit_code` (it must not be the initial
    /// process, whose exit stops the machine).
    pub fn exit_current(&mut self, exit_code: i32)
        requires
            old(self).wf(),
            old(self).current is Some,
            cur(old(self)@) != INITPROC_PID,
        ensures
            final(self).wf(),
            final(self)@ == exit_state(old(self)@, exit_code),
    {
        let ghost s = self@;
        proof {
            lemma_exit_wf(s, exit_code);
            assert(task_ok(s, cur(s)));
            assert(task_ok(s, INITPROC_PID as int));
        }
        let c = self.current.unwrap();
        let mut t = self.tasks.take(c);
        let ghost t0 = t@;
        t.status = TaskStatus::Zombie;
        t.exit_code = exit_code;
        let mut init = self.tasks.take(INITPROC_PID);
        let ghost init0 = init@;
        let n = t.children.len();
        let mut k: usize = 0;
        while k < n
            invariant
                0 <= k <= n,
                n == t.children@.len(),
                t.children@ == t0.children,
                wf_state(s),
                task_ok(s, c as int),
                c != INITPROC_PID,
                c == cur(s),
                t0 == task_of(s, c as int),
                init0 == task_of(s, INITPROC_PID as int),
                init@ == (TaskState { children: init0.children + t0.children.subrange(0, k as int), ..init0 }),
                self.tasks@.len() == s.tasks.len(),
                self.manager@ == s.ready,
                self.current == s.current,
                self.kernel_satp == s.kernel_satp,
                self.trap_handler == s.trap_handler,
                self.tasks@[c as int] is None,
                self.tasks@[INITPROC_PID as int] is None,
                forall|p: int|
                    0 <= p < s.tasks.len() && p != c && p != INITPROC_PID ==> #[trigger] self.tasks@[p]
                        == (if in_seq(t0.children.subrange(0, k as int), p) {
                        Some(TaskState { parent: Some(INITPROC_PID), ..task_of(s, p) })
                    } else {
                        s.tasks[p]
                    }),
            decreases n - k,
        {
            let ch = t.children[k];
            proof {
                assert(child_ok(s, c as int, t0.children[k as int]));
                assert(task_ok(s, ch as int));
                assert(!in_seq(t0.children.subrange(0, k as int), ch as int)) by {
                    if in_seq(t0.children.subrange(0, k as int), ch as int) {
                        let j = choose|j: int|
                            0 <= j < k && t0.children.subrange(0, k as int)[j] as int == ch as int;
                        assert(t0.children[j] == t0.children[k as int]);
                    }
                }
                assert(self.tasks@[ch as int] == s.tasks[ch as int]);
            }
            let mut ct = self.tasks.take(ch);
            ct.parent = Some(INITPROC_PID);
            self.tasks.put(ch, ct);
            init.children.push(ch);
            k = k + 1;
            proof {
                let sub0 = t0.children.subrange(0, k - 1);
                let sub1 = t0.children.subrange(0, k as int);
                assert(sub1 =~= sub0.push(ch));
                assert forall|p: int| in_seq(sub1, p) <==> (in_seq(sub0, p) || p == ch as int) by {
                    if in_seq(sub1, p) {
                        let j = choose|j: int| 0 <= j < sub1.len() && sub1[j] as int == p;
                        if j < sub0.len() {
                            assert(sub0[j] == sub1[j]);
                        }
                    }
                    if in_seq(sub0, p) {
                        let j = choose|j: int| 0 <= j < sub0.len() && sub0[j] as int == p;
                        assert(sub1[j] == sub0[j]);
                    }
                    if p == ch as int {
                        assert(sub1[k - 1] == ch);
                    }
                }
                assert(init0.children + t0.children.subrange(0, k as int) =~= (init0.children
                    + t0.children.subrange(0, k - 1)).push(ch));
            }
        }
        proof {
            assert(t0.children.subrange(0, n as int) =~= t0.children);
        }
        self.tasks.put(INITPROC_PID, init);
        t.children.clear();
        t.memory_set.recycle_data_pages();
        self.tasks.put(c, t);
        self.current = None;
        proof {
            let e = exit_state(s, exit_code);
            assert(t.children@ =~= Seq::<usize>::empty());
            assert(t@ == e.tasks[c as int].unwrap());
            assert(init@ == e.tasks[INITPROC_PID as int].unwrap());
            assert forall|p: int| 0 <= p < s.tasks.len() implies #[trigger] self@.tasks[p] == e.tasks[p] by {
                if p != c && p != INITPROC_PID {
                    assert(t0.children.subrange(0, n as int) == t0.children);
                }
            }
            assert(self@.tasks =~= e.tasks);
        }
    }
    /// The running task forks; returns the child's pid. The child is not
    /// queued yet.
    pub fn fork_current(&mut self) -> (child_pid: usize)
        requires
            old(self).wf(),
            old(self).current is Some,
            pid_space_ok(old(self)@.tasks.len() + 1int),
        ensures
            final(self).wf(),
            final(self)@ == fork_state(old(self)@),
            child_pid == old(self)@.tasks.len(),
    {
        let ghost s = self@;
        let c = self.current.unwrap();
        let n = self.tasks.len();
        let top = kernel_stack_top(n);
        proof {
            assert(task_ok(s, c as int));
        }
        let mut parent = self.tasks.take(c);
        let mut cx = parent.trap_cx;
        cx.kernel_sp = top;
        let child = TaskControlBlock {
            pid: n,
            status: TaskStatus::Ready,
            parent: Some(c),
            children: Vec::new(),
            exit_code: 0,
            memory_set: MemorySet::from_existed_user(&parent.memory_set),
            trap_cx: cx,
            base_size: parent.base_size,
            heap_bottom: parent.heap_bottom,
            program_brk: parent.program_brk,
            stride: 0,
            priority: DEFAULT_PRIORITY,
            syscall_times: [0u32; MAX_SYSCALL_NUM],
            kernel_time: 0,
            user_time: 0,
        };
        proof {
            assert(child.syscall_times@ =~= zero_counts());
            assert(child.children@ =~= Seq::<usize>::empty());
            assert(child@ == forked_child(s, n as int));
            lemma_new_child_wf(s, child@);
        }
        parent.children.push(n);
        self.tasks.put(c, parent);
        self.tasks.push(child);
        assert(self@.tasks =~= fork_state(s).tasks);
        n
    }

    /// Puts the ready task `pid`, which is not queued, at the back of the
    /// ready queue.
    pub fn add_task(&mut self, pid: usize)
        requires
            old(self).wf(),
            is_live(old(self)@.tasks, pid as int),
            task_of(old(self)@, pid as int).status == TaskStatus::Ready,
            !old(self)@.ready.contains(pid),
        ensures
            final(self).wf(),
            final(self)@ == (KernelState { ready: old(self)@.ready.push(pid), ..old(self)@ }),
    {
        proof {
            lemma_enqueue_wf(self@, pid);
        }
        self.manager.add(pid);
    }

    /// The running task spawns a child that runs `image`; returns the
    /// child's pid. `sstatus` is the value of the hart's status register;
    /// the child's trap context saves it with `SPP` set to user mode.
    pub fn spawn_child(&mut self, image: AppImage, sstatus: u64) -> (child_pid: usize)
        requires
            old(self).wf(),
            old(self).current is Some,
            pid_space_ok(old(self)@.tasks.len() + 1int),
        ensures
            final(self).wf(),
            final(self)@ == spawn_state(old(self)@, image, sstatus),
            child_pid == old(self)@.tasks.len(),
    {
        let ghost s = self@;
        let ghost img = image;
        let c = self.current.unwrap();
        let n = self.tasks.len();
        let top = kernel_stack_top(n);
        proof {
            assert(task_ok(s, c as int));
        }
        let mut parent = self.tasks.take(c);
        let trap_cx = TrapContext::app_init_context(
            image.entry_point,
            image.user_sp,
            self.kernel_satp,
            top,
            self.trap_handler,
            sstatus,
        );
        let child = TaskControlBlock {
            pid: n,
            status: TaskStatus::Ready,
            parent: Some(c),
            children: Vec::new(),
            exit_code: 0,
            memory_set: image.memory_set,
            trap_cx,
            base_size: parent.base_size,
            heap_bottom: parent.heap_bottom,
            program_brk: parent.program_brk,
            stride: 0,
            priority: DEFAULT_PRIORITY,
            syscall_times: [0u32; MAX_SYSCALL_NUM],
            kernel_time: 0,
            user_time: 0,
        };
        proof {
            assert(child.syscall_times@ =~= zero_counts());
            assert(child.children@ =~= Seq::<usize>::empty());
            assert(child@ == spawned_child(s, n as int, img, sstatus));
            lemma_new_child_wf(s, child@);
            lemma_ready_below_len(s, n);
        }
        parent.children.push(n);
        self.tasks.put(c, parent);
        self.tasks.push(child);
        let ghost st = sstatus;
        assert(self@.tasks =~= with_new_child(s, spawned_child(s, n as int, img, st)).tasks);
        self.add_task(n);
        assert(self@ == spawn_state(s, img, st));
        n
    }

    /// The running task replaces its program by `image`. `sstatus` is the
    /// value of the hart's status register; the new trap context saves it
    /// with `SPP` set to user mode.
    pub fn exec_current(&mut self, image: AppImage, sstatus: u64)
        requires
            old(self).wf(),
            old(self).current is Some,
        ensures
            final(self).wf(),
            final(self)@ == exec_state(old(self)@, image, sstatus),
    {
        let ghost s = self@;
        let ghost img = image;
        let c = self.current.unwrap();
        proof {
            assert(task_ok(s, c as int));
            assert(pid_space_ok(c as int)) by (nonlinear_arith)
                requires
                    c < s.tasks.len(),
                    pid_space_ok(s.tasks.len() as int),
            ;
        }
        let top = kernel_stack_top(c);
        let mut t = self.tasks.take(c);
        t.memory_set = image.memory_set;
        t.base_size = image.user_sp;
        t.trap_cx = TrapContext::app_init_context(
            image.entry_point,
            image.user_sp,
            self.kernel_satp,
            top,
            self.trap_handler,
            sstatus,
        );
        proof {
            lemma_same_links_wf(s, c as int, t@);
            assert(t@ == exec_state(s, img, sstatus).tasks[c as int].unwrap());
        }
        let ghost st = sstatus;
        self.tasks.put(c, t);
        assert(self@.tasks =~= s.tasks.update(c as int, Some(t@)));
        assert(self@ == exec_state(s, img, st));
    }

    /// The running task collects its `j`-th child, a zombie; returns the
    /// child's pid and exit code.
    pub fn reap_child(&mut self, j: usize) -> (res: (usize, i32))
        requires
            old(self).wf(),
            old(self).current is Some,
            j < task_of(old(self)@, cur(old(self)@)).children.len(),
            task_of(old(self)@, task_of(old(self)@, cur(old(self)@)).children[j as int] as int).status
                == TaskStatus::Zombie,
        ensures
            final(self).wf(),
            final(self)@ == reap_state(old(self)@, j as int),
            res.0 == task_of(old(self)@, cur(old(self)@)).children[j as int],
            res.1 == task_of(old(self)@, res.0 as int).exit_code,
    {
        let ghost s = self@;
        proof {
            lemma_reap_wf(s, j as int);
            assert(task_ok(s, cur(s)));
            assert(child_ok(s, cur(s), task_of(s, cur(s)).children[j as int]));
        }
        let c = self.current.unwrap();
        let mut t = self.tasks.take(c);
        let ch = t.children.remove(j);
        self.tasks.put(c, t);
        let child = self.tasks.take(ch);
        let exit_code = child.exit_code;
        assert(self@.tasks =~= reap_state(s, j as int).tasks);
        (ch, exit_code)
    }
    /// The permission of page `vpn` of the running task, if it is mapped.
    pub fn translate_current(&self, vpn: u64) -> (perm: Option<u8>)
        requires
            self.wf(),
            self.current is Some,
        ensures
            perm == (if cur_memory(self@).contains_key(vpn) {
                Some(cur_memory(self@)[vpn].perm)
            } else {
                None::<u8>
            }),
    {
        let c = self.current.unwrap();
        self.tasks.get(c).memory_set.translate(vpn)
    }

    /// Maps the pages `[lo, hi)` of the running task with permission `perm`.
    pub fn map_current_range(&mut self, lo: u64, hi: u64, perm: u8)
        requires
            old(self).wf(),
            old(self).current is Some,
        ensures
            final(self).wf(),
            final(self)@ == with_memory(old(self)@, map_range(cur_memory(old(self)@), lo as int, hi as int, perm)),
    {
        let ghost s = self@;
        let ghost m0 = cur_memory(s);
        let c = self.current.unwrap();
        let mut t = self.tasks.take(c);
        let ghost t0 = t@;
        let mut vpn = lo;
        if lo < hi {
            while vpn < hi
                invariant
                    lo <= vpn <= hi,
                    t.memory_set@ == map_range(m0, lo as int, vpn as int, perm),
                    t@ == (TaskState { memory: t.memory_set@, ..t0 }),
                    t.memory_set.heap() == t0.heap,
                decreases hi - vpn,
            {
                t.memory_set.map_page(vpn, perm);
                proof {
                    assert(t.memory_set@ =~= map_range(m0, lo as int, vpn + 1, perm));
                }
                vpn = vpn + 1;
            }
        } else {
            assert(t.memory_set@ =~= map_range(m0, lo as int, hi as int, perm));
        }
        proof {
            assert(t.memory_set@ =~= map_range(m0, lo as int, hi as int, perm));
            lemma_same_links_wf(s, c as int, t@);
        }
        self.tasks.put(c, t);
        assert(self@.tasks =~= s.tasks.update(c as int, Some(t@)));
    }

    /// Unmaps the pages that `[start, start + len)` touches from the
    /// running task; returns -1, changing nothing, when one of them is not
    /// mapped, and 0 otherwise.
    pub fn unmap_consecutive_area(&mut self, start: u64, len: u64) -> (r: i64)
        requires
            old(self).wf(),
            old(self).current is Some,
            start + len < VA_RANGE,
        ensures
            final(self).wf(),
            (r, final(self)@) == unmap_area_state(old(self)@, start as int, len as int),
    {
        let ghost s = self@;
        let ghost m0 = cur_memory(s);
        let lo = floor(start);
        let hi = ceil(start + len);
        let mut vpn = lo;
        while vpn < hi
            invariant
                lo <= vpn,
                hi == area_hi(start as int, len as int),
                lo == area_lo(start as int),
                self.wf(),
                self.current is Some,
                self@ == s,
                m0 == cur_memory(s),
                range_mapped(m0, lo as int, vpn as int),
            decreases hi - vpn,
        {
            if self.translate_current(vpn).is_none() {
                return -1;
            }
            vpn = vpn + 1;
        }
        let c = self.current.unwrap();
        assert(lo <= hi) by (nonlinear_arith)
            requires
                lo == floor_vpn(start as int),
                hi == ceil_vpn(start + len),
        ;
        let mut t = self.tasks.take(c);
        let ghost t0 = t@;
        let mut v = lo;
        while v < hi
            invariant
                lo <= v <= hi,
                t.memory_set@ == unmap_range(m0, lo as int, v as int),
                t@ == (TaskState { memory: t.memory_set@, ..t0 }),
                    t.memory_set.heap() == t0.heap,
            decreases hi - v,
        {
            t.memory_set.unmap_page(v);
            proof {
                assert(t.memory_set@ =~= unmap_range(m0, lo as int, v + 1));
            }
            v = v + 1;
        }
        proof {
            assert(t.memory_set@ =~= unmap_range(m0, lo as int, hi as int));
            lemma_same_links_wf(s, c as int, t@);
        }
        self.tasks.put(c, t);
        assert(self@.tasks =~= s.tasks.update(c as int, Some(t@)));
        0
    }

    /// Moves the end of the running task's heap by `size` bytes, shrinking
    /// or growing the heap area; returns the old end, or `None`, changing
    /// nothing, when the new end would lie below the heap's bottom or the
    /// address space has no heap area that starts at the heap's bottom.
    pub fn change_program_brk(&mut self, size: i32) -> (old_brk: Option<u64>)
        requires
            old(self).wf(),
            old(self).current is Some,
            brk_target(old(self)@, size) <= i64::MAX,
            brk_resize_ok(old(self)@, size),
        ensures
            final(self).wf(),
            (old_brk, final(self)@) == brk_state(old(self)@, size),
    {
        let ghost s = self@;
        let c = self.current.unwrap();
        proof {
            assert(task_ok(s, c as int));
        }
        let t = self.tasks.get(c);
        let heap_bottom = t.heap_bottom;
        let old_break = t.program_brk;
        let new_brk: i64 = old_break as i64 + size as i64;
        if new_brk < heap_bottom as i64 {
            return None;
        }
        let mut t = self.tasks.take(c);
        let result = if size < 0 {
            t.memory_set.shrink_to(heap_bottom, new_brk as u64)
        } else {
            t.memory_set.append_to(heap_bottom, new_brk as u64)
        };
        if result {
            t.program_brk = new_brk as u64;
        }
        proof {
            lemma_same_links_wf(s, c as int, t@);
        }
        self.tasks.put(c, t);
        assert(self@.tasks =~= s.tasks.update(c as int, Some(t@)));
        if result {
            Some(old_break)
        } else {
            assert(t@ == task_of(s, c as int));
            assert(self@.tasks =~= s.tasks);
            None
        }
    }

    /// Sets the running task's priority.
    pub fn set_current_priority(&mut self, prio: u64)
        requires
            old(self).wf(),
            old(self).current is Some,
            prio > 0,
        ensures
            final(self).wf(),
            final(self)@ == with_current(old(self)@, TaskState { priority: prio, ..task_of(old(self)@, cur(old(self)@)) }),
    {
        let ghost s = self@;
        let c = self.current.unwrap();
        proof {
            assert(task_ok(s, c as int));
        }
        let mut t = self.tasks.take(c);
        t.priority = prio;
        proof {
            lemma_same_links_wf(s, c as int, t@);
        }
        self.tasks.put(c, t);
        assert(self@.tasks =~= s.tasks.update(c as int, Some(t@)));
    }
    /// Whether every task can be picked once more without its stride
    /// overflowing; when it holds, `run_next`, `sys_yield` and `sys_exit`
    /// may be called.
    pub fn strides_bounded(&self) -> (b: bool)
        requires
            self.wf(),
        ensures
            b == strides_bounded(self@),
    {
        let n = self.tasks.len();
        let mut i: usize = 0;
        while i < n
            invariant
                0 <= i <= n,
                n == self@.tasks.len(),
                forall|p: int| 0 <= p < i && #[trigger] is_live(self@.tasks, p) ==> task_of(self@, p).stride
                    + BIG_STRIDE <= u64::MAX,
            decreases n - i,
        {
            if self.tasks.is_live(i) {
                if self.tasks.get(i).stride > u64::MAX - BIG_STRIDE {
                    return false;
                }
            }
            i = i + 1;
        }
        true
    }
}

} // verus!
