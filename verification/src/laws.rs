//! Properties of the process model that relate several operations.
use vstd::prelude::*;

use crate::config::{BIG_STRIDE, DEFAULT_PRIORITY, INITPROC_PID, MAXVA, MAX_SYSCALL_NUM, PAGE_SIZE};
use crate::kernel::{
    area_hi, area_lo, brk_resize_ok, brk_state, brk_target, cur, cur_memory, exit_state, kstack_top,
    exec_state, lemma_exit_wf, pid_space_ok, reap_state, schedule, schedule_ok, spawn_state, task_of, task_ok,
    unmap_area_state, wf_state, with_memory, KernelState,
};
use crate::manager::{
    advanced, eligible, fetch_ok, first_min_in, lemma_pick_index_bounds, lemma_pick_index_is,
    pick_index, queue_live, stride_of,
};
use crate::mm::{
    ceil_vpn, floor_vpn, heap_found, map_range, perm_of_port, range_free, range_mapped, unmap_range,
    va_of, HEAP_PERM, MAP_PERM_R, MAP_PERM_U, MAP_PERM_W, MAP_PERM_X, VA_RANGE,
};
use crate::process::{
    cur_children, first_zombie, first_zombie_at, fork_syscall_state, has_zombie_match, mmap_args_ok,
    mmap_hi, mmap_lo, munmap_len, zombie_match,
};
use crate::task::{is_live, AppImage, TaskState, TaskStatus};
use crate::trap_context::{lemma_app_init_state, starts_user_program};

verus! {

/// The scheduler picks a task of smallest stride: when some queued task is
/// ready, the picked entry is a ready task, no ready queued task has a
/// smaller stride, and every ready task queued before it has a larger one
/// (on a tie the first in the queue is picked).
pub proof fn law_fetch_picks_smallest_stride(q: Seq<usize>, tasks: Seq<Option<TaskState>>, j: int)
    requires
        0 <= j < q.len(),
        tasks[q[j] as int].unwrap().status == TaskStatus::Ready,
    ensures
        ({
            let i = pick_index(q, tasks);
            let t = tasks[q[i] as int].unwrap();
            &&& 0 <= i < q.len()
            &&& t.status == TaskStatus::Ready
            &&& t.stride <= tasks[q[j] as int].unwrap().stride
            &&& forall|k: int|
                0 <= k < i && #[trigger] tasks[q[k] as int].unwrap().status == TaskStatus::Ready
                    ==> tasks[q[k] as int].unwrap().stride > t.stride
        }),
{
    let n = q.len() as int;
    assert(eligible(tasks, q[j]));
    // the first position of the smallest eligible stride exists
    let m = min_eligible_upto(q, tasks, n, j);
    lemma_pick_index_is(q, tasks, m);
    assert forall|k: int|
        0 <= k < m && #[trigger] tasks[q[k] as int].unwrap().status == TaskStatus::Ready implies tasks[q[k] as int].unwrap().stride
            > tasks[q[m] as int].unwrap().stride by {
        assert(eligible(tasks, q[k]));
    }
}

/// A first position of the smallest eligible stride among the first `n`
/// entries, given that entry `j` is eligible.
proof fn min_eligible_upto(q: Seq<usize>, tasks: Seq<Option<TaskState>>, n: int, j: int) -> (m: int)
    requires
        0 <= j < n <= q.len(),
        eligible(tasks, q[j]),
    ensures
        first_min_in(q, tasks, n, m),
        stride_of(tasks, q[m]) <= stride_of(tasks, q[j]),
    decreases n,
{
    if n == j + 1 {
        if exists|i: int| 0 <= i < j && eligible(tasks, #[trigger] q[i]) {
            let i = choose|i: int| 0 <= i < j && eligible(tasks, #[trigger] q[i]);
            let m0 = min_eligible_upto(q, tasks, j, i);
            if stride_of(tasks, q[m0]) <= stride_of(tasks, q[j]) {
                m0
            } else {
                assert forall|k: int| 0 <= k < j && eligible(tasks, #[trigger] q[k]) implies stride_of(tasks, q[k])
                    > stride_of(tasks, q[j]) by {
                    if k != m0 {
                    }
                }
                j
            }
        } else {
            j
        }
    } else {
        let m0 = min_eligible_upto(q, tasks, n - 1, j);
        if eligible(tasks, q[n - 1]) && stride_of(tasks, q[n - 1]) < stride_of(tasks, q[m0]) {
            assert forall|k: int| 0 <= k < n - 1 && eligible(tasks, #[trigger] q[k]) implies stride_of(tasks, q[k])
                > stride_of(tasks, q[n - 1]) by {
                if k < m0 {
                } else if k > m0 {
                }
            }
            n - 1
        } else {
            m0
        }
    }
}

/// A queue of one task: the scheduler takes that task, whatever its
/// stride or status.
pub proof fn law_single_task_is_fetched(p: usize, tasks: Seq<Option<TaskState>>)
    ensures
        pick_index(seq![p], tasks) == 0,
{
    let q = seq![p];
    if exists|i: int| first_min_in(q, tasks, 1, i) {
        let i = choose|i: int| first_min_in(q, tasks, 1, i);
        assert(i == 0);
    }
}

/// When every queued task is ready with the same stride, the scheduler
/// behaves as a FIFO queue: it takes the front task, the rest of the queue
/// keeps its order, and (the front task's priority being positive and its
/// stride not overflowing) the pick is free of faults.
pub proof fn law_fetch_fifo_on_equal_strides(q: Seq<usize>, tasks: Seq<Option<TaskState>>, stride: u64)
    requires
        q.len() > 0,
        queue_live(q, tasks),
        forall|i: int| 0 <= i < q.len() ==> #[trigger] eligible(tasks, q[i]),
        forall|i: int| 0 <= i < q.len() ==> #[trigger] stride_of(tasks, q[i]) == stride,
        tasks[q[0] as int].unwrap().priority > 0,
        stride + BIG_STRIDE / tasks[q[0] as int].unwrap().priority <= u64::MAX,
    ensures
        pick_index(q, tasks) == 0,
        q.remove(0) == q.subrange(1, q.len() as int),
        fetch_ok(q, tasks),
{
    assert(eligible(tasks, q[0]));
    assert(stride_of(tasks, q[0]) == stride);
    assert forall|j: int| #![trigger q[j]] 0 < j < q.len() && eligible(tasks, q[j]) implies stride_of(tasks, q[j])
        >= stride_of(tasks, q[0]) by {
        assert(stride_of(tasks, q[j]) == stride);
    }
    assert(first_min_in(q, tasks, q.len() as int, 0));
    lemma_pick_index_is(q, tasks, 0);
    assert(q.remove(0) =~= q.subrange(1, q.len() as int));
}

/// The ready queue's invariant as the scheduler sees it: every entry names
/// a live task, ready to run, with a priority of at least 2, queued once,
/// whose stride can advance once more without overflow.
pub open spec fn ready_queue_inv(q: Seq<usize>, tasks: Seq<Option<TaskState>>) -> bool {
    &&& queue_live(q, tasks)
    &&& q.no_duplicates()
    &&& forall|i: int|
        0 <= i < q.len() ==> {
            let t = #[trigger] tasks[q[i] as int].unwrap();
            &&& t.status == TaskStatus::Ready
            &&& t.priority >= 2
            &&& t.stride + BIG_STRIDE / t.priority <= u64::MAX
        }
}

/// Fetching keeps the ready queue's invariant: the pick is free of faults,
/// the queue loses exactly the task returned, which is queued no more, and
/// the tasks left keep their state, so they still meet the invariant.
pub proof fn law_fetch_keeps_queue_inv(q: Seq<usize>, tasks: Seq<Option<TaskState>>)
    requires
        ready_queue_inv(q, tasks),
        q.len() > 0,
    ensures
        fetch_ok(q, tasks),
        ({
            let i = pick_index(q, tasks);
            let p = q[i];
            let q2 = q.remove(i);
            let tasks2 = tasks.update(p as int, Some(advanced(tasks[p as int].unwrap())));
            &&& q2.len() == q.len() - 1
            &&& !q2.contains(p)
            &&& queue_live(q2, tasks2)
            &&& ready_queue_inv(q2, tasks2)
            &&& forall|k: int| 0 <= k < q2.len() ==> #[trigger] tasks2[q2[k] as int] == tasks[q2[k] as int]
        }),
{
    lemma_pick_index_bounds(q, tasks);
    let i = pick_index(q, tasks);
    let p = q[i];
    let q2 = q.remove(i);
    let tasks2 = tasks.update(p as int, Some(advanced(tasks[p as int].unwrap())));
    let t = tasks[q[i] as int].unwrap();
    assert(is_live(tasks, q[i] as int));
    assert(t.priority >= 2);
    assert(fetch_ok(q, tasks));
    assert forall|k: int| 0 <= k < q2.len() implies #[trigger] q2[k] != p by {
        let kk = if k < i { k } else { k + 1 };
        assert(q2[k] == q[kk]);
        assert(kk != i);
    }
    assert(!q2.contains(p)) by {
        if q2.contains(p) {
            let k = choose|k: int| 0 <= k < q2.len() && q2[k] == p;
            assert(q2[k] != p);
        }
    }
    assert forall|k: int| 0 <= k < q2.len() implies #[trigger] is_live(tasks2, q2[k] as int) by {
        let kk = if k < i { k } else { k + 1 };
        assert(q2[k] == q[kk]);
        assert(q2[k] != p);
        assert(is_live(tasks, q[kk] as int));
        assert(tasks2[q2[k] as int] == tasks[q2[k] as int]);
    }
    assert forall|a: int, b: int| 0 <= a < q2.len() && 0 <= b < q2.len() && a != b implies q2[a] != q2[b] by {
        let aa = if a < i { a } else { a + 1 };
        let bb = if b < i { b } else { b + 1 };
        assert(q2[a] == q[aa]);
        assert(q2[b] == q[bb]);
    }
    assert forall|k: int| 0 <= k < q2.len() implies #[trigger] tasks2[q2[k] as int] == tasks[q2[k] as int] by {
        assert(q2[k] != p);
        let kk = if k < i { k } else { k + 1 };
        assert(q2[k] == q[kk]);
        assert(is_live(tasks, q[kk] as int));
    }
    assert forall|k: int| 0 <= k < q2.len() implies {
        let u = #[trigger] tasks2[q2[k] as int].unwrap();
        &&& u.status == TaskStatus::Ready
        &&& u.priority >= 2
        &&& u.stride + BIG_STRIDE / u.priority <= u64::MAX
    } by {
        let kk = if k < i { k } else { k + 1 };
        assert(q2[k] == q[kk]);
        assert(tasks2[q2[k] as int] == tasks[q2[k] as int]);
        assert(tasks[q[kk] as int].unwrap().priority >= 2);
    }
}

/// After `fork`, the child has a pid that no task had, and it is a queued,
/// ready task whose parent is the
/// caller, it is the caller's last child, it resumes where the caller does
/// with 0 as the call's result, and its address space is a copy of the
/// caller's: the same pages with the same permissions and the same bytes.
/// The caller is unchanged but for its new child.
pub proof fn law_fork_child(s: KernelState)
    requires
        wf_state(s),
        s.current is Some,
    ensures
        ({
            let s2 = fork_syscall_state(s);
            let n = s.tasks.len() as int;
            let child = task_of(s2, n);
            let parent = task_of(s2, cur(s));
            &&& !is_live(s.tasks, n)
            &&& is_live(s2.tasks, n)
            &&& child.status == TaskStatus::Ready
            &&& child.parent == Some(cur(s) as usize)
            &&& child.trap_cx.x[10] == 0
            &&& child.trap_cx.sepc == task_of(s, cur(s)).trap_cx.sepc
            &&& child.memory == task_of(s, cur(s)).memory
            &&& forall|v: u64| #[trigger] child.memory.contains_key(v) ==> {
                &&& child.memory[v].perm == parent.memory[v].perm
                &&& child.memory[v].bytes == parent.memory[v].bytes
            }
            &&& parent == (TaskState { children: task_of(s, cur(s)).children.push(n as usize), ..task_of(s, cur(s)) })
            &&& s2.ready.last() == n
            &&& s2.current == s.current
        }),
{
    assert(is_live(s.tasks, cur(s)));
    let s2 = fork_syscall_state(s);
    let n = s.tasks.len() as int;
    let child = task_of(s2, n);
    let parent = task_of(s2, cur(s));
    assert(is_live(s2.tasks, n));
    assert(child.status == TaskStatus::Ready);
    assert(child.parent == Some(cur(s) as usize));
    assert(child.trap_cx.x[10] == 0);
    assert(child.memory == task_of(s, cur(s)).memory);
    assert(parent == (TaskState { children: task_of(s, cur(s)).children.push(n as usize), ..task_of(s, cur(s)) }));
    assert(s2.ready.last() == n);
}

/// After the running task `c` exits with `exit_code`, it is a zombie that
/// holds the code and is still a child of its parent; when the parent
/// next runs and waits for `c`, it collects `c` and gets `exit_code`, and
/// `c` is gone.
pub proof fn law_exit_then_wait(s: KernelState, exit_code: i32)
    requires
        wf_state(s),
        s.current is Some,
        cur(s) != INITPROC_PID,
        task_of(s, cur(s)).parent is Some,
    ensures
        ({
            let c = cur(s);
            let q = task_of(s, c).parent.unwrap();
            let s1 = exit_state(s, exit_code);
            let s2 = KernelState { current: Some(q), ..s1 };
            let pid = c as i64;
            let j = first_zombie(s2, pid);
            &&& wf_state(s1)
            &&& task_of(s1, c).status == TaskStatus::Zombie
            &&& task_of(s1, c).exit_code == exit_code
            &&& is_live(s1.tasks, q as int)
            &&& task_of(s1, q as int).children.contains(c as usize)
            &&& has_zombie_match(s2, pid)
            &&& cur_children(s2)[j] == c
            &&& task_of(s2, c).exit_code == exit_code
            &&& !is_live(reap_state(s2, j).tasks, c)
        }),
{
    let c = cur(s);
    let t = task_of(s, c);
    let q = t.parent.unwrap();
    let s1 = exit_state(s, exit_code);
    let s2 = KernelState { current: Some(q), ..s1 };
    let pid = c as i64;
    lemma_exit_wf(s, exit_code);
    assert(is_live(s.tasks, c));
    assert(task_ok(s, c));
    assert(crate::kernel::parent_ok(s, c, q));
    assert(task_ok(s, q as int));
    let ch = task_of(s, q as int).children;
    let i = choose|i: int| 0 <= i < ch.len() && ch[i] == c as usize;
    assert(task_of(s1, q as int).children[i] == c as usize);
    assert(zombie_match(s2, pid, i));
    assert forall|k: int| 0 <= k < i implies !#[trigger] zombie_match(s2, pid, k) by {
        assert(task_of(s1, q as int).children[k] == ch[k]);
        assert(ch[k] != ch[i]);
    }
    assert(first_zombie_at(s2, pid, i));
    let j = first_zombie(s2, pid);
    assert(first_zombie_at(s2, pid, j));
    if j < i {
        assert(!zombie_match(s2, pid, j));
    } else if i < j {
        assert(!zombie_match(s2, pid, i));
    }
}

/// Mapping an area with `mmap` and unmapping the same area with `munmap`
/// succeeds and gives the running task back the address space it had.
pub proof fn law_mmap_then_munmap(s: KernelState, start: u64, len: u64, port: u64)
    requires
        wf_state(s),
        s.current is Some,
        mmap_args_ok(start, port),
        start + len <= MAXVA,
        range_free(cur_memory(s), mmap_lo(start), mmap_hi(start, len)),
    ensures
        ({
            let s1 = with_memory(
                s,
                map_range(cur_memory(s), mmap_lo(start), mmap_hi(start, len), perm_of_port(port)),
            );
            unmap_area_state(s1, start as int, munmap_len(start, len)) == (0i64, s)
        }),
{
    let lo = mmap_lo(start);
    let hi = mmap_hi(start, len);
    let m = cur_memory(s);
    let m1 = map_range(m, lo, hi, perm_of_port(port));
    let s1 = with_memory(s, m1);
    assert(va_of(start + len) == start + len);
    assert(munmap_len(start, len) == len);
    assert(area_lo(start as int) == lo);
    assert(area_hi(start as int, len as int) == hi);
    assert(is_live(s.tasks, cur(s)));
    assert(cur_memory(s1) == m1);
    assert(range_mapped(m1, lo, hi));
    assert(unmap_range(m1, lo, hi) =~= m);
    let s2 = with_memory(s1, unmap_range(m1, lo, hi));
    assert(task_of(s2, cur(s)) == task_of(s, cur(s)));
    assert(s2.tasks =~= s.tasks);
}

/// Growing the heap by `size` bytes with `sbrk` and shrinking it back by
/// `-size` succeeds twice, returns the old ends, and gives back the state
/// it started from, when the heap area ends at the page of the heap end
/// and the pages it grows into are free.
pub proof fn law_sbrk_round_trip(s: KernelState, size: i32)
    requires
        wf_state(s),
        s.current is Some,
        size > 0,
        brk_target(s, size) <= i64::MAX,
        heap_found(task_of(s, cur(s)).heap, task_of(s, cur(s)).heap_bottom),
        task_of(s, cur(s)).heap.unwrap().1 == ceil_vpn(task_of(s, cur(s)).program_brk as int),
        range_free(
            task_of(s, cur(s)).memory,
            ceil_vpn(task_of(s, cur(s)).program_brk as int),
            ceil_vpn(brk_target(s, size)),
        ),
    ensures
        ({
            let b = task_of(s, cur(s)).program_brk;
            let (r1, s1) = brk_state(s, size);
            let (r2, s2) = brk_state(s1, -size as i32);
            &&& brk_resize_ok(s, size)
            &&& r1 == Some(b)
            &&& brk_target(s1, -size as i32) <= i64::MAX
            &&& brk_resize_ok(s1, -size as i32)
            &&& r2 == Some((b + size) as u64)
            &&& s2 == s
        }),
{
    let c = cur(s);
    let t = task_of(s, c);
    assert(is_live(s.tasks, c));
    assert(task_ok(s, c));
    let (st, e) = t.heap.unwrap();
    let b = t.program_brk;
    let target = b + size;
    let ne = ceil_vpn(target);
    assert(e <= ne) by (nonlinear_arith)
        requires
            e == ceil_vpn(b as int),
            ne == ceil_vpn(target),
            b <= target,
    ;
    assert(st <= e) by (nonlinear_arith)
        requires
            st == floor_vpn(t.heap_bottom as int),
            e == ceil_vpn(b as int),
            t.heap_bottom <= b,
    ;
    let (r1, s1) = brk_state(s, size);
    let m1 = map_range(t.memory, e as int, ne, HEAP_PERM);
    let t1 = task_of(s1, c);
    assert(s1.current == s.current);
    assert(t1 == TaskState { program_brk: target as u64, memory: m1, heap: Some((st, ne as u64)), ..t });
    assert(brk_target(s1, -size as i32) == b);
    assert(range_mapped(m1, e as int, ne));
    assert(unmap_range(m1, e as int, ne) =~= t.memory);
    let (r2, s2) = brk_state(s1, -size as i32);
    assert(task_of(s2, c) == t);
    assert(s2.tasks =~= s.tasks);
}

/// Once `mmap(start, len, port)` has mapped an area, a later `mmap(a, m, _)`
/// whose bytes overlap that area finds one of its pages mapped, so it fails
/// and changes nothing (both areas below the 39-bit address limit).
pub proof fn law_mmap_overlap_fails(s: KernelState, start: u64, len: u64, port: u64, a: u64, m: u64)
    requires
        wf_state(s),
        s.current is Some,
        len >= 1,
        m >= 1,
        start + len < VA_RANGE,
        a + m < VA_RANGE,
        a < start + len,
        start < a + m,
    ensures
        ({
            let s1 = with_memory(
                s,
                map_range(cur_memory(s), mmap_lo(start), mmap_hi(start, len), perm_of_port(port)),
            );
            !range_free(cur_memory(s1), mmap_lo(a), mmap_hi(a, m))
        }),
{
    let mem = map_range(cur_memory(s), mmap_lo(start), mmap_hi(start, len), perm_of_port(port));
    let s1 = with_memory(s, mem);
    assert(is_live(s.tasks, cur(s)));
    assert(cur_memory(s1) == mem);
    let x: int = if a < start { start as int } else { a as int };
    assert(va_of(start + len) == start + len);
    assert(va_of(a + m) == a + m);
    let v = floor_vpn(x);
    assert(floor_vpn(start as int) <= v < ceil_vpn(start + len)) by (nonlinear_arith)
        requires
            start <= x < start + len,
            v == floor_vpn(x),
    ;
    assert(floor_vpn(a as int) <= v < ceil_vpn(a + m)) by (nonlinear_arith)
        requires
            a <= x < a + m,
            v == floor_vpn(x),
    ;
    assert(mem.contains_key(v as u64));
}

/// `fork` gives the child the caller's register file: every register of
/// the child's trap context but `a0` (`x10`) holds the caller's value, and
/// `a0` holds 0; the child resumes at the caller's `sepc`, with the
/// caller's status and kernel addresses but a kernel stack of its own. The
/// child also has the caller's pages and bytes, heap area, program size,
/// heap bottom and program break; it is a ready child of the caller with
/// no children and fresh scheduling state (stride 0, the default priority,
/// no system call counted, no time spent), as a spawned child has.
pub proof fn law_fork_copies_the_caller(s: KernelState)
    requires
        wf_state(s),
        s.current is Some,
    ensures
        ({
            let s2 = fork_syscall_state(s);
            let n = s.tasks.len() as int;
            let p = task_of(s, cur(s));
            let ch = task_of(s2, n);
            &&& ch.trap_cx.x.len() == 32
            &&& forall|i: int| 0 <= i < 32 && i != 10 ==> #[trigger] ch.trap_cx.x[i] == p.trap_cx.x[i]
            &&& ch.trap_cx.x[10] == 0
            &&& ch.trap_cx.sepc == p.trap_cx.sepc
            &&& ch.trap_cx.sstatus == p.trap_cx.sstatus
            &&& ch.trap_cx.kernel_satp == p.trap_cx.kernel_satp
            &&& ch.trap_cx.trap_handler == p.trap_cx.trap_handler
            &&& ch.trap_cx.kernel_sp == kstack_top(n) as u64
            &&& ch.memory == p.memory
            &&& ch.heap == p.heap
            &&& ch.base_size == p.base_size
            &&& ch.heap_bottom == p.heap_bottom
            &&& ch.program_brk == p.program_brk
            &&& ch.pid == n
            &&& ch.parent == Some(cur(s) as usize)
            &&& ch.children.len() == 0
            &&& ch.status == TaskStatus::Ready
            &&& ch.stride == 0
            &&& ch.priority == DEFAULT_PRIORITY
            &&& ch.syscall_times.len() == MAX_SYSCALL_NUM
            &&& forall|i: int| 0 <= i < MAX_SYSCALL_NUM ==> #[trigger] ch.syscall_times[i] == 0
            &&& ch.kernel_time == 0 && ch.user_time == 0
        }),
{
    let c = cur(s);
    assert(is_live(s.tasks, c));
    assert(task_ok(s, c));
    let s2 = fork_syscall_state(s);
    let n = s.tasks.len() as int;
    let p = task_of(s, c);
    let ch = task_of(s2, n);
    assert(ch.trap_cx.x == p.trap_cx.x.update(10, 0));
}

/// The page permission that `mmap` gives for a valid protection argument
/// `port` (1 to 7): readable iff bit 0 of `port` is set, writable iff bit
/// 1 is, executable iff bit 2 is, always user-accessible, and no other bit.
pub proof fn law_mmap_permission_bits(port: u64)
    requires
        1 <= port <= 7,
    ensures
        (perm_of_port(port) & MAP_PERM_R != 0) == (port & 1 != 0),
        (perm_of_port(port) & MAP_PERM_W != 0) == (port & 2 != 0),
        (perm_of_port(port) & MAP_PERM_X != 0) == (port & 4 != 0),
        perm_of_port(port) & MAP_PERM_U != 0,
        perm_of_port(port) & !0x1eu8 == 0,
        perm_of_port(port) == ((port << 1) as u8) | MAP_PERM_U,
{
    let p = perm_of_port(port);
    assert(port < 8 ==> (((port * 2 + 16) as u8) & 2u8 != 0) == (port & 1 != 0)) by (bit_vector);
    assert(port < 8 ==> (((port * 2 + 16) as u8) & 4u8 != 0) == (port & 2 != 0)) by (bit_vector);
    assert(port < 8 ==> (((port * 2 + 16) as u8) & 8u8 != 0) == (port & 4 != 0)) by (bit_vector);
    assert(port < 8 ==> ((port * 2 + 16) as u8) & 0x10u8 != 0) by (bit_vector);
    assert(port < 8 ==> ((port * 2 + 16) as u8) & !0x1eu8 == 0) by (bit_vector);
    assert(port < 8 ==> ((port * 2 + 16) as u8) == ((port << 1) as u8) | 0x10u8) by (bit_vector);
}

/// A successful `mmap(start, len, port)` maps every page of the area with
/// exactly the access bits that `port` asks for (plus user access), onto
/// fresh zeroed frames, and leaves every other page of the caller as it was.
pub proof fn law_mmap_maps_with_the_port_bits(s: KernelState, start: u64, len: u64, port: u64)
    requires
        wf_state(s),
        s.current is Some,
        mmap_args_ok(start, port),
        range_free(cur_memory(s), mmap_lo(start), mmap_hi(start, len)),
    ensures
        ({
            let m = cur_memory(with_memory(
                s,
                map_range(cur_memory(s), mmap_lo(start), mmap_hi(start, len), perm_of_port(port)),
            ));
            &&& forall|v: u64|
                mmap_lo(start) <= v < mmap_hi(start, len) ==> {
                    &&& #[trigger] m.contains_key(v)
                    &&& (m[v].perm & MAP_PERM_R != 0) == (port & 1 != 0)
                    &&& (m[v].perm & MAP_PERM_W != 0) == (port & 2 != 0)
                    &&& (m[v].perm & MAP_PERM_X != 0) == (port & 4 != 0)
                    &&& m[v].perm & MAP_PERM_U != 0
                    &&& m[v].perm & !0x1eu8 == 0
                    &&& m[v].bytes == Seq::new(PAGE_SIZE as nat, |i: int| 0u8)
                }
            &&& forall|v: u64|
                !(mmap_lo(start) <= v < mmap_hi(start, len)) ==> (#[trigger] m.contains_key(v)
                    == cur_memory(s).contains_key(v) && (m.contains_key(v) ==> m[v] == cur_memory(s)[v]))
        }),
{
    law_mmap_permission_bits(port);
    assert(is_live(s.tasks, cur(s)));
}

/// Fetching changes the picked task only in its stride, which grows by
/// `BIG_STRIDE / priority`: its priority, status and every other field
/// stay as they were.
pub proof fn law_fetch_advances_only_the_stride(q: Seq<usize>, tasks: Seq<Option<TaskState>>)
    requires
        q.len() > 0,
        fetch_ok(q, tasks),
    ensures
        ({
            let p = q[pick_index(q, tasks)];
            let t = tasks[p as int].unwrap();
            let t2 = tasks.update(p as int, Some(advanced(t)))[p as int].unwrap();
            &&& t2.stride == t.stride + BIG_STRIDE / t.priority
            &&& t2.priority == t.priority
            &&& t2.status == t.status
            &&& (TaskState { stride: t.stride, ..t2 }) == t
        }),
{
    lemma_pick_index_bounds(q, tasks);
    let p = q[pick_index(q, tasks)];
    assert(is_live(tasks, p as int));
}

/// Picking the same task twice advances its stride by two passes of its
/// own priority: what a pick sets up for the next one is the task's
/// priority as it was.
pub proof fn law_fetch_twice_advances_two_passes(t: TaskState)
    requires
        t.priority > 0,
        t.stride + 2 * (BIG_STRIDE / t.priority) <= u64::MAX,
    ensures
        advanced(advanced(t)).stride == t.stride + 2 * (BIG_STRIDE / t.priority),
        advanced(advanced(t)).priority == t.priority,
{
}

/// Scheduling runs the picked task with its stride advanced by its pass;
/// the task keeps its priority and everything else but its status.
pub proof fn law_schedule_advances_only_the_stride(s: KernelState)
    requires
        wf_state(s),
        s.current is None,
        s.ready.len() > 0,
        schedule_ok(s),
    ensures
        ({
            let p = s.ready[pick_index(s.ready, s.tasks)];
            let t = task_of(s, p as int);
            let t2 = task_of(schedule(s), p as int);
            &&& schedule(s).current == Some(p)
            &&& t2.status == TaskStatus::Running
            &&& t2.stride == t.stride + BIG_STRIDE / t.priority
            &&& t2.priority == t.priority
            &&& (TaskState { stride: t.stride, status: t.status, ..t2 }) == t
        }),
{
    lemma_pick_index_bounds(s.ready, s.tasks);
    let p = s.ready[pick_index(s.ready, s.tasks)];
    assert(is_live(s.tasks, p as int));
}

/// A spawned child starts with fresh scheduling state, whatever the
/// caller's: stride 0, the default priority, no system call counted and no
/// time spent. It is a ready child of the caller, runs the program's pages
/// from its entry point in user mode, and takes the caller's program size,
/// heap bottom and program break.
pub proof fn law_spawn_child_starts_fresh(s: KernelState, image: AppImage, sstatus: u64)
    requires
        wf_state(s),
        s.current is Some,
        pid_space_ok(s.tasks.len() + 1int),
    ensures
        ({
            let n = s.tasks.len() as int;
            let s2 = spawn_state(s, image, sstatus);
            let p = task_of(s, cur(s));
            let ch = task_of(s2, n);
            &&& is_live(s2.tasks, n)
            &&& ch.stride == 0
            &&& ch.priority == DEFAULT_PRIORITY
            &&& ch.syscall_times.len() == MAX_SYSCALL_NUM
            &&& forall|i: int| 0 <= i < MAX_SYSCALL_NUM ==> #[trigger] ch.syscall_times[i] == 0
            &&& ch.kernel_time == 0 && ch.user_time == 0
            &&& ch.status == TaskStatus::Ready
            &&& ch.parent == Some(cur(s) as usize)
            &&& ch.children.len() == 0
            &&& ch.memory == image.memory_set@
            &&& starts_user_program(
                ch.trap_cx,
                image.entry_point,
                image.user_sp,
                s.kernel_satp,
                kstack_top(n) as u64,
                s.trap_handler,
            )
            &&& ch.base_size == p.base_size
            &&& ch.heap_bottom == p.heap_bottom
            &&& ch.program_brk == p.program_brk
            &&& s2.ready.last() == n
        }),
{
    let n = s.tasks.len() as int;
    lemma_app_init_state(sstatus, image.entry_point, image.user_sp, s.kernel_satp, kstack_top(n) as u64, s.trap_handler);
}

/// The arguments that `mmap` accepts are exactly those the kernel tests
/// bit by bit: a page-aligned start below `MAXVA`, and a protection with no
/// bit above the low three and at least one of them.
pub proof fn law_mmap_accepts(start: u64, port: u64)
    ensures
        mmap_args_ok(start, port) <==> (start % PAGE_SIZE == 0 && start < MAXVA && port & !7u64 == 0
            && port & 7u64 != 0),
{
    assert((port & !7u64 == 0 && port & 7u64 != 0) <==> (1 <= port && port <= 7)) by (bit_vector);
}

/// `exec` replaces the running task's program and nothing else of the
/// task: the new pages, heap area and program size are the image's, the
/// trap context starts the image's entry in user mode on the task's own
/// kernel stack, and the pid, family, status, heap bounds and scheduling
/// state stay as they were. No other task changes.
pub proof fn law_exec_keeps_the_task(s: KernelState, image: AppImage, sstatus: u64)
    requires
        wf_state(s),
        s.current is Some,
    ensures
        ({
            let c = cur(s);
            let s2 = exec_state(s, image, sstatus);
            let t = task_of(s, c);
            let t2 = task_of(s2, c);
            &&& t2.memory == image.memory_set@
            &&& t2.heap == image.memory_set.heap()
            &&& t2.base_size == image.user_sp
            &&& starts_user_program(
                t2.trap_cx,
                image.entry_point,
                image.user_sp,
                s.kernel_satp,
                kstack_top(c) as u64,
                s.trap_handler,
            )
            &&& t2.pid == t.pid && t2.parent == t.parent && t2.children == t.children
            &&& t2.status == t.status
            &&& t2.heap_bottom == t.heap_bottom && t2.program_brk == t.program_brk
            &&& t2.stride == t.stride && t2.priority == t.priority
            &&& t2.syscall_times == t.syscall_times
            &&& s2.current == s.current && s2.ready == s.ready
            &&& s2.tasks.len() == s.tasks.len()
            &&& forall|p: int| 0 <= p < s.tasks.len() && p != c ==> #[trigger] s2.tasks[p] == s.tasks[p]
        }),
{
    let c = cur(s);
    assert(is_live(s.tasks, c));
    lemma_app_init_state(sstatus, image.entry_point, image.user_sp, s.kernel_satp, kstack_top(c) as u64, s.trap_handler);
}

} // verus!
