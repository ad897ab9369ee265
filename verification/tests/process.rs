use rcore_os::config::{BIG_STRIDE, DEFAULT_PRIORITY, INITPROC_PID, MAXVA, PAGE_SIZE};
use rcore_os::kernel::Kernel;
use rcore_os::mm::{MemorySet, HEAP_PERM, MAP_PERM_R, MAP_PERM_U, MAP_PERM_W, MAP_PERM_X};
use rcore_os::process::{
    sys_exec, sys_exit, sys_fork, sys_get_time, sys_getpid, sys_mmap,
    sys_munmap, sys_sbrk, sys_set_priority, sys_spawn, sys_task_info,
    sys_waitpid, sys_yield, TimeVal,
};
use rcore_os::task::{AppImage, TaskStatus};

const KERNEL_SATP: u64 = 0x8000_0000_0008_0200;
const TRAP_HANDLER: u64 = 0x8020_1000;
const USER_SP: u64 = 0x1_0000;
const ENTRY: u64 = 0x1000;

fn image(pages: &[u64], user_sp: u64, entry_point: u64) -> AppImage {
    let mut ms = MemorySet::new_bare();
    for p in pages {
        ms.map_page(*p, MAP_PERM_R | MAP_PERM_X | MAP_PERM_U);
    }
    ms.insert_heap_area(user_sp);
    AppImage { memory_set: ms, user_sp, entry_point }
}

/// A kernel that has booted and runs the initial process.
fn booted() -> Kernel {
    let mut k = Kernel::new(image(&[1, 2], USER_SP, ENTRY), KERNEL_SATP, TRAP_HANDLER, 0x22);
    k.run_next();
    k
}

fn current(k: &Kernel) -> usize {
    k.current.unwrap()
}

fn mapped(k: &Kernel, vpn: u64) -> Option<u8> {
    k.tasks.get(current(k)).memory_set.translate(vpn)
}

#[test]
fn boot_runs_the_initial_process() {
    let mut k = Kernel::new(image(&[1], USER_SP, ENTRY), KERNEL_SATP, TRAP_HANDLER, 0x122);
    assert_eq!(k.current, None);
    assert_eq!(k.manager.ready_queue.len(), 1);
    k.run_next();
    assert_eq!(k.current, Some(INITPROC_PID));
    let t = k.tasks.get(INITPROC_PID);
    assert_eq!(t.status, TaskStatus::Running);
    assert_eq!(t.trap_cx.sepc, ENTRY);
    assert_eq!(t.trap_cx.x[2], USER_SP);
    assert_eq!(t.trap_cx.sstatus, 0x22);
    assert_eq!(t.trap_cx.kernel_satp, KERNEL_SATP);
    assert_eq!(t.trap_cx.trap_handler, TRAP_HANDLER);
    assert_eq!(t.trap_cx.kernel_sp, 0xffff_ffff_ffff_f000);
    assert_eq!(t.priority, DEFAULT_PRIORITY);
    assert_eq!(t.stride, BIG_STRIDE / DEFAULT_PRIORITY);
    assert_eq!(t.heap_bottom, USER_SP);
    assert_eq!(t.program_brk, USER_SP);
    assert!(k.manager.ready_queue.is_empty());
}

#[test]
fn getpid_returns_the_running_task() {
    let k = booted();
    assert_eq!(sys_getpid(&k), 0);
}

#[test]
fn yield_with_a_single_task_runs_it_again() {
    let mut k = booted();
    assert_eq!(sys_yield(&mut k), 0);
    assert_eq!(k.current, Some(0));
    assert_eq!(k.tasks.get(0).stride, 2 * (BIG_STRIDE / DEFAULT_PRIORITY));
}

#[test]
fn fork_returns_child_pid_and_child_sees_zero() {
    let mut k = booted();
    let parent_cx = k.tasks.get(0).trap_cx;
    let pid = sys_fork(&mut k);
    assert_eq!(pid, 1);
    assert_eq!(k.current, Some(0));
    assert_eq!(k.tasks.get(0).children, vec![1]);
    let child = k.tasks.get(1);
    assert_eq!(child.parent, Some(0));
    assert_eq!(child.status, TaskStatus::Ready);
    assert_eq!(child.trap_cx.x[10], 0);
    assert_eq!(child.trap_cx.sepc, parent_cx.sepc);
    assert_eq!(child.trap_cx.kernel_sp, 0xffff_ffff_ffff_f000 - 0x3000);
    assert_eq!(child.memory_set.translate(1), k.tasks.get(0).memory_set.translate(1));
    assert_eq!(child.stride, 0);
    assert_eq!(child.priority, DEFAULT_PRIORITY);
    assert_eq!(k.manager.ready_queue.iter().copied().collect::<Vec<_>>(), vec![1]);
}

#[test]
fn yield_hands_the_processor_to_the_smaller_stride() {
    let mut k = booted();
    sys_fork(&mut k);
    assert_eq!(sys_yield(&mut k), 0);
    // the child has stride 0, the parent has advanced once
    assert_eq!(k.current, Some(1));
    assert_eq!(sys_getpid(&k), 1);
    assert_eq!(k.tasks.get(0).status, TaskStatus::Ready);
}

#[test]
fn exit_then_wait_collects_the_exit_code() {
    let mut k = booted();
    sys_fork(&mut k);
    sys_yield(&mut k);
    assert_eq!(current(&k), 1);
    sys_exit(&mut k, 7);
    assert_eq!(k.current, Some(0));
    assert_eq!(k.tasks.get(1).status, TaskStatus::Zombie);
    let mut code = -100;
    assert_eq!(sys_waitpid(&mut k, 1, &mut code), 1);
    assert_eq!(code, 7);
    assert!(!k.tasks.is_live(1));
    assert!(k.tasks.get(0).children.is_empty());
    // nothing is left to wait for
    let mut code2 = -100;
    assert_eq!(sys_waitpid(&mut k, -1, &mut code2), -1);
    assert_eq!(code2, -100);
}

#[test]
fn waitpid_without_matching_child_is_minus_one() {
    let mut k = booted();
    sys_fork(&mut k);
    let mut code = 3;
    assert_eq!(sys_waitpid(&mut k, 5, &mut code), -1);
    assert_eq!(sys_waitpid(&mut k, -7, &mut code), -1);
    assert_eq!(code, 3);
}

#[test]
fn waitpid_with_running_child_is_minus_two() {
    let mut k = booted();
    sys_fork(&mut k);
    let mut code = 3;
    assert_eq!(sys_waitpid(&mut k, 1, &mut code), -2);
    assert_eq!(sys_waitpid(&mut k, -1, &mut code), -2);
    assert_eq!(code, 3);
    assert!(k.tasks.is_live(1));
}

#[test]
fn waitpid_any_collects_the_first_exited_child() {
    let mut k = booted();
    sys_fork(&mut k); // pid 1
    sys_fork(&mut k); // pid 2
    // run both children to their exits
    sys_yield(&mut k);
    let a = current(&k);
    sys_exit(&mut k, 10 + a as i32);
    let b = current(&k);
    assert_ne!(b, 0);
    sys_exit(&mut k, 10 + b as i32);
    assert_eq!(current(&k), 0);
    let mut code = 0;
    assert_eq!(sys_waitpid(&mut k, -1, &mut code), 1);
    assert_eq!(code, 11);
    assert_eq!(sys_waitpid(&mut k, -1, &mut code), 2);
    assert_eq!(code, 12);
}

#[test]
fn exit_hands_children_to_the_initial_process() {
    let mut k = booted();
    sys_fork(&mut k); // 1, child of 0
    sys_yield(&mut k);
    assert_eq!(current(&k), 1);
    assert_eq!(sys_fork(&mut k), 2); // child of 1
    sys_exit(&mut k, 0);
    assert_eq!(k.tasks.get(2).parent, Some(0));
    assert_eq!(k.tasks.get(0).children, vec![1, 2]);
    assert!(k.tasks.get(1).children.is_empty());
    assert_eq!(k.tasks.get(1).memory_set.translate(1), None);
}

#[test]
fn mmap_maps_pages_with_user_permission() {
    let mut k = booted();
    assert_eq!(sys_mmap(&mut k, 0x10000, 0x2000, 3), 0);
    assert_eq!(mapped(&k, 0x10), Some(MAP_PERM_R | MAP_PERM_W | MAP_PERM_U));
    assert_eq!(mapped(&k, 0x11), Some(MAP_PERM_R | MAP_PERM_W | MAP_PERM_U));
    assert_eq!(mapped(&k, 0x12), None);
    // a length that is not a multiple of the page size rounds up
    assert_eq!(sys_mmap(&mut k, 0x20000, 1, 4), 0);
    assert_eq!(mapped(&k, 0x20), Some(MAP_PERM_X | MAP_PERM_U));
    assert_eq!(mapped(&k, 0x21), None);
}

#[test]
fn mmap_rejects_bad_arguments() {
    let mut k = booted();
    assert_eq!(sys_mmap(&mut k, 0x10001, 0x1000, 1), -1);
    assert_eq!(sys_mmap(&mut k, 0x10000, 0x1000, 0), -1);
    assert_eq!(sys_mmap(&mut k, 0x10000, 0x1000, 8), -1);
    assert_eq!(sys_mmap(&mut k, 0x10000, 0x1000, 9), -1);
    assert_eq!(sys_mmap(&mut k, MAXVA, 0x1000, 1), -1);
    assert_eq!(mapped(&k, 0x10), None);
}

#[test]
fn mmap_over_a_mapped_page_fails() {
    let mut k = booted();
    assert_eq!(sys_mmap(&mut k, 0x3000, 0x1000, 1), 0);
    assert_eq!(sys_mmap(&mut k, 0x2000, 0x3000, 1), -1);
    assert_eq!(mapped(&k, 0x2), Some(MAP_PERM_R | MAP_PERM_X | MAP_PERM_U));
    assert_eq!(mapped(&k, 0x4), None);
}

#[test]
fn mmap_then_munmap_restores_the_address_space() {
    let mut k = booted();
    assert_eq!(sys_mmap(&mut k, 0x40000, 3 * PAGE_SIZE, 7), 0);
    assert_eq!(sys_munmap(&mut k, 0x40000, 3 * PAGE_SIZE), 0);
    for vpn in 0x40..0x43 {
        assert_eq!(mapped(&k, vpn), None);
    }
    assert!(mapped(&k, 1).is_some());
    assert!(mapped(&k, 2).is_some());
}

#[test]
fn munmap_of_unmapped_page_fails() {
    let mut k = booted();
    assert_eq!(sys_mmap(&mut k, 0x40000, PAGE_SIZE, 1), 0);
    assert_eq!(sys_munmap(&mut k, 0x40000, 2 * PAGE_SIZE), -1);
    assert!(mapped(&k, 0x40).is_some());
    assert_eq!(sys_munmap(&mut k, 0x40001, PAGE_SIZE), -1);
    assert_eq!(sys_munmap(&mut k, MAXVA, PAGE_SIZE), -1);
}

#[test]
fn munmap_cuts_the_area_at_maxva() {
    let mut k = booted();
    let last = MAXVA - PAGE_SIZE;
    assert_eq!(sys_mmap(&mut k, last, PAGE_SIZE, 2), 0);
    assert_eq!(sys_munmap(&mut k, last, 5 * PAGE_SIZE), 0);
    assert_eq!(mapped(&k, last / PAGE_SIZE), None);
    // a length beyond MAXVA is cut the same way
    assert_eq!(sys_mmap(&mut k, last, PAGE_SIZE, 2), 0);
    assert_eq!(sys_munmap(&mut k, last, u64::MAX), 0);
    assert_eq!(mapped(&k, last / PAGE_SIZE), None);
}

#[test]
fn sbrk_moves_the_heap_end() {
    let mut k = booted();
    assert_eq!(sys_sbrk(&mut k, -1), -1);
    assert_eq!(sys_sbrk(&mut k, 0x2000), USER_SP as i64);
    assert_eq!(mapped(&k, USER_SP / PAGE_SIZE), Some(HEAP_PERM));
    assert_eq!(mapped(&k, USER_SP / PAGE_SIZE + 1), Some(HEAP_PERM));
    assert_eq!(mapped(&k, USER_SP / PAGE_SIZE + 2), None);
    assert_eq!(sys_sbrk(&mut k, 0), (USER_SP + 0x2000) as i64);
    assert_eq!(sys_sbrk(&mut k, -0x1800), (USER_SP + 0x2000) as i64);
    assert_eq!(mapped(&k, USER_SP / PAGE_SIZE), Some(HEAP_PERM));
    assert_eq!(mapped(&k, USER_SP / PAGE_SIZE + 1), None);
    assert_eq!(sys_sbrk(&mut k, -0x800), (USER_SP + 0x800) as i64);
    assert_eq!(k.tasks.get(0).program_brk, USER_SP);
    assert_eq!(mapped(&k, USER_SP / PAGE_SIZE), None);
    assert_eq!(k.tasks.get(0).memory_set.heap_area(), Some((0x10, 0x10)));
}

#[test]
fn sbrk_without_heap_area_fails() {
    let mut k = booted();
    // the new program's heap area starts elsewhere than the task's heap
    assert_eq!(sys_exec(&mut k, Some(image(&[9], 0x9000, 0x3000)), 0), 0);
    assert_eq!(sys_sbrk(&mut k, 0x1000), -1);
    assert_eq!(k.tasks.get(0).program_brk, USER_SP);
}

#[test]
fn set_priority_accepts_two_and_above() {
    let mut k = booted();
    assert_eq!(sys_set_priority(&mut k, 1), -1);
    assert_eq!(sys_set_priority(&mut k, -5), -1);
    assert_eq!(k.tasks.get(0).priority, DEFAULT_PRIORITY);
    assert_eq!(sys_set_priority(&mut k, 2), 2);
    assert_eq!(k.tasks.get(0).priority, 2);
    sys_yield(&mut k);
    assert_eq!(k.tasks.get(0).stride, BIG_STRIDE / DEFAULT_PRIORITY + BIG_STRIDE / 2);
}

#[test]
fn spawn_and_exec_without_program_fail() {
    let mut k = booted();
    assert_eq!(sys_spawn(&mut k, None, 0), -1);
    assert_eq!(sys_exec(&mut k, None, 0), -1);
    assert_eq!(k.tasks.len(), 1);
    assert_eq!(k.tasks.get(0).trap_cx.sepc, ENTRY);
}

#[test]
fn spawn_creates_a_queued_child_running_the_program() {
    let mut k = booted();
    sys_sbrk(&mut k, 0x1000);
    let pid = sys_spawn(&mut k, Some(image(&[7], 0x8000, 0x2000)), 0x122);
    assert_eq!(pid, 1);
    assert_eq!(k.tasks.get(0).children, vec![1]);
    let child = k.tasks.get(1);
    assert_eq!(child.parent, Some(0));
    assert_eq!(child.status, TaskStatus::Ready);
    assert_eq!(child.trap_cx.sepc, 0x2000);
    assert_eq!(child.trap_cx.x[2], 0x8000);
    assert_eq!(child.trap_cx.sstatus, 0x22);
    assert_eq!(child.trap_cx.kernel_sp, 0xffff_ffff_ffff_f000 - 0x3000);
    assert_eq!(child.memory_set.translate(7), Some(MAP_PERM_R | MAP_PERM_X | MAP_PERM_U));
    assert_eq!(child.memory_set.translate(1), None);
    // the heap comes from the parent
    assert_eq!(child.program_brk, USER_SP + 0x1000);
    assert_eq!(child.base_size, USER_SP);
    assert_eq!(k.manager.ready_queue.iter().copied().collect::<Vec<_>>(), vec![1]);
}

#[test]
fn exec_replaces_the_program() {
    let mut k = booted();
    assert_eq!(sys_exec(&mut k, Some(image(&[9], 0x9000, 0x3000)), 0x100), 0);
    let t = k.tasks.get(0);
    assert_eq!(t.trap_cx.sepc, 0x3000);
    assert_eq!(t.trap_cx.x[2], 0x9000);
    assert_eq!(t.trap_cx.x[10], 0);
    assert_eq!(t.trap_cx.sstatus, 0);
    assert_eq!(t.trap_cx.kernel_sp, 0xffff_ffff_ffff_f000);
    assert_eq!(t.base_size, 0x9000);
    assert_eq!(t.memory_set.translate(9), Some(MAP_PERM_R | MAP_PERM_X | MAP_PERM_U));
    assert_eq!(t.memory_set.translate(1), None);
    assert_eq!(t.status, TaskStatus::Running);
}

#[test]
fn get_time_splits_microseconds() {
    assert_eq!(sys_get_time(0), TimeVal { sec: 0, usec: 0 });
    assert_eq!(sys_get_time(1_500_000), TimeVal { sec: 1, usec: 500_000 });
    assert_eq!(sys_get_time(999_999), TimeVal { sec: 0, usec: 999_999 });
    assert_eq!(sys_get_time(86_400_000_001), TimeVal { sec: 86_400, usec: 1 });
}

#[test]
fn task_info_reports_the_running_task() {
    let k = booted();
    let info = sys_task_info(&k);
    assert_eq!(info.status, TaskStatus::Running);
    assert_eq!(info.time, 0);
    assert!(info.syscall_times.iter().all(|c| *c == 0));
}

#[test]
fn munmap_refuses_a_bad_start_with_no_task_running() {
    let mut k = Kernel::new(image(&[1], USER_SP, ENTRY), KERNEL_SATP, TRAP_HANDLER, 0);
    assert_eq!(k.current, None);
    assert_eq!(sys_munmap(&mut k, 0x40001, PAGE_SIZE), -1);
    assert_eq!(sys_munmap(&mut k, MAXVA, PAGE_SIZE), -1);
    assert_eq!(k.manager.ready_queue.len(), 1);
    assert_eq!(k.tasks.get(0).memory_set.translate(1), Some(MAP_PERM_R | MAP_PERM_X | MAP_PERM_U));
}

#[test]
fn fork_copies_the_bytes_of_every_page() {
    let mut ms = MemorySet::new_bare();
    ms.map_page(1, MAP_PERM_R | MAP_PERM_W | MAP_PERM_U);
    ms.map_page(2, MAP_PERM_R | MAP_PERM_U);
    assert!(ms.write_byte(1, 0, 0xab));
    assert!(ms.write_byte(2, 4095, 0x5a));
    ms.insert_heap_area(USER_SP);
    let mut k = Kernel::new(AppImage { memory_set: ms, user_sp: USER_SP, entry_point: ENTRY }, KERNEL_SATP, TRAP_HANDLER, 0);
    k.run_next();
    assert_eq!(sys_fork(&mut k), 1);
    let child = k.tasks.get(1);
    assert_eq!(child.memory_set.read_byte(1, 0), Some(0xab));
    assert_eq!(child.memory_set.read_byte(2, 4095), Some(0x5a));
    assert_eq!(child.memory_set.read_byte(1, 1), Some(0));
    // the copy has frames of its own: writing in the child leaves the parent as it was
    let mut c = k.tasks.take(1);
    assert!(c.memory_set.write_byte(1, 0, 0x11));
    k.tasks.put(1, c);
    assert_eq!(k.tasks.get(1).memory_set.read_byte(1, 0), Some(0x11));
    assert_eq!(k.tasks.get(0).memory_set.read_byte(1, 0), Some(0xab));
}
