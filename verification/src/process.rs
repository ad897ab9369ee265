//! Process management system calls.
//!
//! Each call acts on the kernel's process state on behalf of the running
//! task. Where the call reads or writes user memory, the caller hands the
//! decoded argument in (the loaded program for `exec` and `spawn`, the
//! exit-code slot for `waitpid`) or writes the result out (`get_time`,
//! `task_info`). Results that are registers of the RV64 ABI are `i64`.
use vstd::prelude::*;

use crate::config::{INITPROC_PID, MAXVA, MAX_SYSCALL_NUM, PAGE_SIZE};
use crate::kernel::{
    cur, cur_memory, exec_state, kstack_top, exit_state, fork_state, pid_space_ok,
    reap_state, schedule, schedule_ok, spawn_state, suspend, task_of, task_ok, unmap_area_state,
    brk_resize_ok, brk_state, brk_target, with_current, with_memory, lemma_same_links_wf, lemma_ready_below_len, Kernel,
    KernelState,
};
use crate::mm::{
    ceil, ceil_vpn, floor, floor_vpn, map_permission_from_port, map_range, perm_of_port, range_free,
    va_of, virt_addr,
};
use crate::task::{is_live, AppImage, TaskState, TaskStatus};
use crate::trap_context::{lemma_app_init_state, starts_user_program, TrapState};

verus! {

/// A time value: seconds and microseconds.
#[derive(Debug, Clone, Copy, PartialEq, Eq, Structural)]
pub struct TimeVal {
    pub sec: u64,
    pub usec: u64,
}

/// What `task_info` reports of the running task.
pub struct TaskInfo {
    /// The task's life-cycle state.
    pub status: TaskStatus,
    /// Number of calls of each system call.
    pub syscall_times: [u32; MAX_SYSCALL_NUM],
    /// Total running time of the task, in milliseconds.
    pub time: u64,
}

/// The running task exits with `exit_code`, and the processor runs the
/// next task. (The exit of the initial process stops the machine instead.)
pub fn sys_exit(kernel: &mut Kernel, exit_code: i32)
    requires
        old(kernel).wf(),
        old(kernel).current is Some,
        cur(old(kernel)@) != INITPROC_PID,
        schedule_ok(exit_state(old(kernel)@, exit_code)),
    ensures
        final(kernel).wf(),
        final(kernel)@ == schedule(exit_state(old(kernel)@, exit_code)),
{
    kernel.exit_current(exit_code);
    kernel.run_next();
}

/// The running task gives up the processor for the next task; returns 0.
pub fn sys_yield(kernel: &mut Kernel) -> (r: i64)
    requires
        old(kernel).wf(),
        old(kernel).current is Some,
        schedule_ok(suspend(old(kernel)@)),
    ensures
        r == 0,
        final(kernel).wf(),
        final(kernel)@ == schedule(suspend(old(kernel)@)),
{
    kernel.suspend_current();
    kernel.run_next();
    0
}

/// The pid of the running task.
pub fn sys_getpid(kernel: &Kernel) -> (pid: i64)
    requires
        kernel.wf(),
        kernel.current is Some,
    ensures
        pid == cur(kernel@),
{
    let c = kernel.current.unwrap();
    proof {
        assert(c < kernel@.tasks.len());
    }
    c as i64
}

/// The state after `fork`: the child created by forking is queued, and its
/// return-value register `a0` (`x10`) holds 0.
pub open spec fn fork_syscall_state(s: KernelState) -> KernelState {
    let s1 = fork_state(s);
    let n = s.tasks.len() as int;
    let ch = task_of(s1, n);
    KernelState {
        tasks: s1.tasks.update(
            n,
            Some(TaskState { trap_cx: TrapState { x: ch.trap_cx.x.update(10, 0), ..ch.trap_cx }, ..ch }),
        ),
        ready: s1.ready.push(n as usize),
        ..s1
    }
}

/// The running task forks; returns the child's pid to the parent. The
/// child, queued, sees 0 as the result of the call.
pub fn sys_fork(kernel: &mut Kernel) -> (r: i64)
    requires
        old(kernel).wf(),
        old(kernel).current is Some,
        pid_space_ok(old(kernel)@.tasks.len() + 1int),
    ensures
        final(kernel).wf(),
        final(kernel)@ == fork_syscall_state(old(kernel)@),
        r == old(kernel)@.tasks.len(),
{
    let ghost s = kernel@;
    let new_pid = kernel.fork_current();
    let ghost s1 = kernel@;
    proof {
        assert(is_live(s1.tasks, new_pid as int));
        assert(task_ok(s1, new_pid as int));
    }
    let mut child = kernel.tasks.take(new_pid);
    child.trap_cx.x[10] = 0;
    proof {
        lemma_same_links_wf(s1, new_pid as int, child@);
        lemma_ready_below_len(s, new_pid);
    }
    kernel.tasks.put(new_pid, child);
    assert(kernel@.tasks =~= s1.tasks.update(new_pid as int, Some(child@)));
    kernel.add_task(new_pid);
    proof {
        assert(child@.trap_cx.x =~= task_of(s1, new_pid as int).trap_cx.x.update(10, 0));
        assert(kernel@.tasks =~= fork_syscall_state(s).tasks);
    }
    new_pid as i64
}

/// The running task replaces its program by `data`, the program the path
/// names; returns -1, changing nothing, when no program has that name.
/// `sstatus` is the value of the hart's status register; the new trap
/// context saves it with `SPP` set to user mode, so that the program starts
/// in user mode.
pub fn sys_exec(kernel: &mut Kernel, data: Option<AppImage>, sstatus: u64) -> (r: i64)
    requires
        old(kernel).wf(),
        old(kernel).current is Some,
    ensures
        final(kernel).wf(),
        match data {
            None => r == -1 && final(kernel)@ == old(kernel)@,
            Some(image) => {
                &&& r == 0
                &&& final(kernel)@ == exec_state(old(kernel)@, image, sstatus)
                &&& starts_user_program(
                    task_of(final(kernel)@, cur(old(kernel)@)).trap_cx,
                    image.entry_point,
                    image.user_sp,
                    old(kernel)@.kernel_satp,
                    kstack_top(cur(old(kernel)@)) as u64,
                    old(kernel)@.trap_handler,
                )
            },
        },
{
    match data {
        Some(image) => {
            let ghost s = kernel@;
            let ghost img = image;
            kernel.exec_current(image, sstatus);
            proof {
                lemma_app_init_state(
                    sstatus,
                    img.entry_point,
                    img.user_sp,
                    s.kernel_satp,
                    kstack_top(cur(s)) as u64,
                    s.trap_handler,
                );
            }
            0
        },
        None => -1,
    }
}

/// `pid` selects `child`: -1 selects every child.
pub open spec fn pid_matches(pid: i64, child: usize) -> bool {
    pid == -1 || pid == child as int
}

/// The children of the running task.
pub open spec fn cur_children(s: KernelState) -> Seq<usize> {
    task_of(s, cur(s)).children
}

/// The `j`-th child of the running task is selected by `pid` and is a zombie.
pub open spec fn zombie_match(s: KernelState, pid: i64, j: int) -> bool {
    let ch = cur_children(s)[j];
    &&& pid_matches(pid, ch)
    &&& task_of(s, ch as int).status == TaskStatus::Zombie
}

/// Some child of the running task is selected by `pid`.
pub open spec fn has_child_match(s: KernelState, pid: i64) -> bool {
    exists|j: int| 0 <= j < cur_children(s).len() && pid_matches(pid, #[trigger] cur_children(s)[j])
}

/// Some child of the running task selected by `pid` is a zombie.
pub open spec fn has_zombie_match(s: KernelState, pid: i64) -> bool {
    exists|j: int| 0 <= j < cur_children(s).len() && #[trigger] zombie_match(s, pid, j)
}

/// `j` is the first position of a selected zombie among the children.
pub open spec fn first_zombie_at(s: KernelState, pid: i64, j: int) -> bool {
    &&& 0 <= j < cur_children(s).len()
    &&& zombie_match(s, pid, j)
    &&& forall|k: int| 0 <= k < j ==> !#[trigger] zombie_match(s, pid, k)
}

/// The first position of a selected zombie among the children.
pub open spec fn first_zombie(s: KernelState, pid: i64) -> int {
    choose|j: int| first_zombie_at(s, pid, j)
}

/// The running task waits for a child: `pid` selects the child with that
/// pid, or any child when it is -1. Returns -1 when no child is selected,
/// -2 when no selected child has exited yet, and otherwise collects the
/// first selected child that has exited: it is removed from the task's
/// children and the task table, its exit code is stored in `exit_code`,
/// and its pid is returned.
pub fn sys_waitpid(kernel: &mut Kernel, pid: i64, exit_code: &mut i32) -> (r: i64)
    requires
        old(kernel).wf(),
        old(kernel).current is Some,
    ensures
        final(kernel).wf(),
        !has_child_match(old(kernel)@, pid) ==> {
            &&& r == -1
            &&& final(kernel)@ == old(kernel)@
            &&& *final(exit_code) == *old(exit_code)
        },
        has_child_match(old(kernel)@, pid) && !has_zombie_match(old(kernel)@, pid) ==> {
            &&& r == -2
            &&& final(kernel)@ == old(kernel)@
            &&& *final(exit_code) == *old(exit_code)
        },
        has_zombie_match(old(kernel)@, pid) ==> {
            let j = first_zombie(old(kernel)@, pid);
            let ch = cur_children(old(kernel)@)[j];
            &&& r == ch as int
            &&& *final(exit_code) == task_of(old(kernel)@, ch as int).exit_code
            &&& final(kernel)@ == reap_state(old(kernel)@, j)
        },
{
    let ghost s = kernel@;
    let c = kernel.current.unwrap();
    proof {
        assert(task_ok(s, c as int));
    }
    let t = kernel.tasks.get(c);
    let n = t.children.len();
    let mut any = false;
    let mut i: usize = 0;
    while i < n && !any
        invariant
            0 <= i <= n,
            n == cur_children(s).len(),
            t@ == task_of(s, c as int),
            c as int == cur(s),
            any ==> has_child_match(s, pid),
            !any ==> forall|k: int| 0 <= k < i ==> !pid_matches(pid, #[trigger] cur_children(s)[k]),
        decreases n - i + (if any { 0int } else { 1int }),
    {
        let ch = t.children[i];
        if pid == -1 || (pid >= 0 && pid as u64 == ch as u64) {
            assert(pid_matches(pid, cur_children(s)[i as int]));
            any = true;
        } else {
            i = i + 1;
        }
    }
    if !any {
        return -1;
    }
    let mut found: Option<usize> = None;
    let mut j: usize = 0;
    while j < n && found.is_none()
        invariant
            0 <= j <= n,
            n == cur_children(s).len(),
            kernel@ == s,
            kernel.wf(),
            s.current == Some(c),
            t@ == task_of(s, c as int),
            c as int == cur(s),
            found matches Some(k) ==> first_zombie_at(s, pid, k as int),
            found is None ==> forall|k: int| 0 <= k < j ==> !#[trigger] zombie_match(s, pid, k),
        decreases n - j + (if found is None { 1int } else { 0int }),
    {
        let ch = t.children[j];
        proof {
            assert(is_live(s.tasks, c as int));
            assert(task_ok(s, c as int));
            assert(crate::kernel::child_ok(s, c as int, cur_children(s)[j as int]));
        }
        let child = kernel.tasks.get(ch);
        if child.status == TaskStatus::Zombie && (pid == -1 || (pid >= 0 && pid as u64 == ch as u64)) {
            assert(zombie_match(s, pid, j as int));
            found = Some(j);
        } else {
            j = j + 1;
        }
    }
    match found {
        Some(idx) => {
            proof {
                assert(has_zombie_match(s, pid));
                let f = first_zombie(s, pid);
                assert(first_zombie_at(s, pid, f));
                if f < idx {
                    assert(!zombie_match(s, pid, f));
                } else if idx < f {
                    assert(!zombie_match(s, pid, idx as int));
                }
            }
            let (found_pid, code) = kernel.reap_child(idx);
            *exit_code = code;
            proof {
                assert(found_pid < s.tasks.len());
            }
            found_pid as i64
        },
        None => {
            proof {
                assert(!has_zombie_match(s, pid)) by {
                    if has_zombie_match(s, pid) {
                        let k = choose|k: int| 0 <= k < cur_children(s).len() && #[trigger] zombie_match(s, pid, k);
                        assert(!zombie_match(s, pid, k));
                    }
                }
            }
            -2
        },
    }
}

/// The start address and protection of an `mmap` call are acceptable: the
/// start is page-aligned and below `MAXVA`, and the protection is a
/// non-empty combination of read (1), write (2) and execute (4).
pub open spec fn mmap_args_ok(start: u64, port: u64) -> bool {
    &&& start % PAGE_SIZE == 0
    &&& 1 <= port <= 7
    &&& start < MAXVA
}

/// First page that `mmap(start, len, _)` maps.
pub open spec fn mmap_lo(start: u64) -> int {
    floor_vpn(start as int)
}

/// Page just past the last one that `mmap(start, len, _)` maps: the end
/// address is taken as a 39-bit virtual address and rounded up.
pub open spec fn mmap_hi(start: u64, len: u64) -> int {
    ceil_vpn(va_of(start + len))
}

/// Maps the pages that `[start, start + len)` touches into the running
/// task, readable, writable and executable as `port` says, and accessible
/// from user mode. Returns -1, changing nothing, when the arguments are
/// not acceptable or one of the pages is already mapped; 0 otherwise.
pub fn sys_mmap(kernel: &mut Kernel, start: u64, len: u64, port: u64) -> (r: i64)
    requires
        old(kernel).wf(),
        old(kernel).current is Some,
        mmap_args_ok(start, port) ==> start + len <= u64::MAX,
        mmap_args_ok(start, port) ==> mmap_lo(start) <= mmap_hi(start, len),
    ensures
        final(kernel).wf(),
        !mmap_args_ok(start, port) ==> r == -1 && final(kernel)@ == old(kernel)@,
        mmap_args_ok(start, port) && !range_free(cur_memory(old(kernel)@), mmap_lo(start), mmap_hi(start, len))
            ==> r == -1 && final(kernel)@ == old(kernel)@,
        mmap_args_ok(start, port) && range_free(cur_memory(old(kernel)@), mmap_lo(start), mmap_hi(start, len))
            ==> r == 0 && final(kernel)@ == with_memory(
            old(kernel)@,
            map_range(cur_memory(old(kernel)@), mmap_lo(start), mmap_hi(start, len), perm_of_port(port)),
        ),
{
    assert((port & !0x07u64 != 0 || port & 0x07u64 == 0) <==> !(1 <= port && port <= 7)) by (bit_vector);
    if start % PAGE_SIZE != 0 || port & !0x07 != 0 || port & 0x07 == 0 || start >= MAXVA {
        return -1;
    }
    let ghost s = kernel@;
    let start_vpn = floor(virt_addr(start));
    let end_vpn = ceil(virt_addr(start + len));
    proof {
        assert(va_of(start as int) == start as int);
    }
    let mut vpn = start_vpn;
    while vpn < end_vpn
        invariant
            start_vpn <= vpn <= end_vpn,
            start_vpn == mmap_lo(start),
            end_vpn == mmap_hi(start, len),
            kernel@ == s,
            kernel.wf(),
            kernel.current is Some,
            range_free(cur_memory(s), start_vpn as int, vpn as int),
        decreases end_vpn - vpn,
    {
        if let Some(_pte) = kernel.translate_current(vpn) {
            return -1;
        }
        vpn = vpn + 1;
    }
    let perm = map_permission_from_port(port);
    kernel.map_current_range(start_vpn, end_vpn, perm);
    0
}

/// The start address of a `munmap` call is acceptable: page-aligned and
/// below `MAXVA`.
pub open spec fn munmap_args_ok(start: u64) -> bool {
    start < MAXVA && start % PAGE_SIZE == 0
}

/// The length `munmap` works with: cut so that the area ends at `MAXVA`
/// at the latest.
pub open spec fn munmap_len(start: u64, len: u64) -> int {
    if start + len > MAXVA {
        MAXVA - start
    } else {
        len as int
    }
}

/// Unmaps the pages that `[start, start + len)` touches from the running
/// task, the area cut at `MAXVA`. Returns -1, changing nothing, when the
/// start is not acceptable or one of the pages is not mapped; 0 otherwise.
pub fn sys_munmap(kernel: &mut Kernel, start: u64, len: u64) -> (r: i64)
    requires
        old(kernel).wf(),
        munmap_args_ok(start) ==> old(kernel).current is Some,
    ensures
        final(kernel).wf(),
        !munmap_args_ok(start) ==> r == -1 && final(kernel)@ == old(kernel)@,
        munmap_args_ok(start) ==> (r, final(kernel)@) == unmap_area_state(
            old(kernel)@,
            start as int,
            munmap_len(start, len),
        ),
{
    if start >= MAXVA || start % PAGE_SIZE != 0 {
        return -1;
    }
    // cut the area at MAXVA
    let mut mlen = len;
    if len > MAXVA - start {
        mlen = MAXVA - start;
    }
    kernel.unmap_consecutive_area(start, mlen)
}

/// Moves the end of the running task's heap by `size` bytes, shrinking or
/// growing the heap area to match. Returns the old end, or -1, changing
/// nothing, when the new end would lie below the bottom of the heap or the
/// address space has no heap area starting at that bottom.
pub fn sys_sbrk(kernel: &mut Kernel, size: i32) -> (r: i64)
    requires
        old(kernel).wf(),
        old(kernel).current is Some,
        brk_target(old(kernel)@, size) <= i64::MAX,
        brk_resize_ok(old(kernel)@, size),
    ensures
        final(kernel).wf(),
        final(kernel)@ == brk_state(old(kernel)@, size).1,
        r == match brk_state(old(kernel)@, size).0 {
            Some(b) => b as int,
            None => -1,
        },
{
    proof {
        let s = kernel@;
        assert(is_live(s.tasks, cur(s)));
        assert(task_ok(s, cur(s)));
    }
    match kernel.change_program_brk(size) {
        Some(old_brk) => old_brk as i64,
        None => -1,
    }
}

/// Sets the running task's priority to `prio` and returns it; returns -1,
/// changing nothing, when `prio` is below 2.
pub fn sys_set_priority(kernel: &mut Kernel, prio: i64) -> (r: i64)
    requires
        old(kernel).wf(),
        old(kernel).current is Some,
    ensures
        final(kernel).wf(),
        prio <= 1 ==> r == -1 && final(kernel)@ == old(kernel)@,
        prio > 1 ==> r == prio && final(kernel)@ == with_current(
            old(kernel)@,
            TaskState { priority: prio as u64, ..task_of(old(kernel)@, cur(old(kernel)@)) },
        ),
{
    if prio <= 1 {
        return -1;
    }
    kernel.set_current_priority(prio as u64);
    prio
}

/// The running task spawns a child that runs `data`, the program the path
/// names; returns the child's pid, or -1, changing nothing, when no program
/// has that name. `sstatus` is the value of the hart's status register; the
/// child's trap context saves it with `SPP` set to user mode, so that the
/// child starts in user mode.
pub fn sys_spawn(kernel: &mut Kernel, data: Option<AppImage>, sstatus: u64) -> (r: i64)
    requires
        old(kernel).wf(),
        old(kernel).current is Some,
        data is Some ==> pid_space_ok(old(kernel)@.tasks.len() + 1int),
    ensures
        final(kernel).wf(),
        match data {
            None => r == -1 && final(kernel)@ == old(kernel)@,
            Some(image) => {
                &&& r == old(kernel)@.tasks.len()
                &&& final(kernel)@ == spawn_state(old(kernel)@, image, sstatus)
                &&& starts_user_program(
                    task_of(final(kernel)@, r as int).trap_cx,
                    image.entry_point,
                    image.user_sp,
                    old(kernel)@.kernel_satp,
                    kstack_top(r as int) as u64,
                    old(kernel)@.trap_handler,
                )
            },
        },
{
    match data {
        Some(image) => {
            let ghost s = kernel@;
            let ghost img = image;
            let pid = kernel.spawn_child(image, sstatus);
            proof {
                assert(pid < old(kernel)@.tasks.len() + 1);
                lemma_app_init_state(
                    sstatus,
                    img.entry_point,
                    img.user_sp,
                    s.kernel_satp,
                    kstack_top(pid as int) as u64,
                    s.trap_handler,
                );
            }
            pid as i64
        },
        None => -1,
    }
}

/// The time value of `us` microseconds.
pub fn sys_get_time(us: u64) -> (tv: TimeVal)
    ensures
        tv.sec == us / 1_000_000,
        tv.usec == us % 1_000_000,
        tv.sec * 1_000_000 + tv.usec == us,
        tv.usec < 1_000_000,
{
    TimeVal { sec: us / 1_000_000, usec: us % 1_000_000 }
}

/// The status, syscall counters and running time (kernel plus user time)
/// of the running task.
pub fn sys_task_info(kernel: &Kernel) -> (info: TaskInfo)
    requires
        kernel.wf(),
        kernel.current is Some,
        task_of(kernel@, cur(kernel@)).kernel_time + task_of(kernel@, cur(kernel@)).user_time
            <= u64::MAX,
    ensures
        info.status == task_of(kernel@, cur(kernel@)).status,
        info.syscall_times@ == task_of(kernel@, cur(kernel@)).syscall_times,
        info.time == task_of(kernel@, cur(kernel@)).kernel_time + task_of(kernel@, cur(kernel@)).user_time,
{
    let c = kernel.current.unwrap();
    let t = kernel.tasks.get(c);
    TaskInfo { status: t.status, syscall_times: t.syscall_times, time: t.kernel_time + t.user_time }
}

} // verus!
