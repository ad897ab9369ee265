use std::collections::VecDeque;

use rcore_os::config::{BIG_STRIDE, DEFAULT_PRIORITY, MAX_SYSCALL_NUM};
use rcore_os::manager::TaskManager;
use rcore_os::mm::MemorySet;
use rcore_os::task::{TaskControlBlock, TaskStatus, TaskTable};
use rcore_os::trap_context::TrapContext;

fn tcb(pid: usize, status: TaskStatus, stride: u64, priority: u64) -> TaskControlBlock {
    TaskControlBlock {
        pid,
        status,
        parent: None,
        children: Vec::new(),
        exit_code: 0,
        memory_set: MemorySet::new_bare(),
        trap_cx: TrapContext::app_init_context(0, 0, 0, 0, 0, 0),
        base_size: 0,
        heap_bottom: 0,
        program_brk: 0,
        stride,
        priority,
        syscall_times: [0; MAX_SYSCALL_NUM],
        kernel_time: 0,
        user_time: 0,
    }
}

fn table(tasks: Vec<TaskControlBlock>) -> TaskTable {
    let mut t = TaskTable::new();
    for x in tasks {
        t.push(x);
    }
    t
}

fn queue(m: &TaskManager) -> Vec<usize> {
    m.ready_queue.iter().copied().collect()
}

#[test]
fn fetch_from_empty_queue_is_none() {
    let mut m = TaskManager::new();
    let mut t = table(vec![tcb(0, TaskStatus::Ready, 0, 16)]);
    assert_eq!(m.fetch(&mut t), None);
    assert_eq!(t.get(0).stride, 0);
}

#[test]
fn fetch_picks_smallest_stride() {
    let mut m = TaskManager::new();
    let mut t = table(vec![
        tcb(0, TaskStatus::Ready, 50, 10),
        tcb(1, TaskStatus::Ready, 30, 8),
        tcb(2, TaskStatus::Ready, 40, 2),
    ]);
    for p in 0..3 {
        m.add(p);
    }
    assert_eq!(m.fetch(&mut t), Some(1));
    assert_eq!(t.get(1).stride, 30 + BIG_STRIDE / 8);
    assert_eq!(t.get(0).stride, 50);
    assert_eq!(queue(&m), vec![0, 2]);
}

#[test]
fn fetch_on_tie_takes_first_in_queue() {
    let mut m = TaskManager::new();
    let mut t = table(vec![
        tcb(0, TaskStatus::Ready, 9, 16),
        tcb(1, TaskStatus::Ready, 7, 16),
        tcb(2, TaskStatus::Ready, 7, 16),
    ]);
    m.add(0);
    m.add(2);
    m.add(1);
    assert_eq!(m.fetch(&mut t), Some(2));
    assert_eq!(queue(&m), vec![0, 1]);
}

#[test]
fn fetch_skips_tasks_that_are_not_ready() {
    let mut m = TaskManager::new();
    let mut t = table(vec![
        tcb(0, TaskStatus::Zombie, 1, 16),
        tcb(1, TaskStatus::Ready, 20, 16),
        tcb(2, TaskStatus::Running, 2, 16),
    ]);
    for p in 0..3 {
        m.add(p);
    }
    assert_eq!(m.fetch(&mut t), Some(1));
    assert_eq!(queue(&m), vec![0, 2]);
}

#[test]
fn fetch_picks_the_smallest_stride_however_large() {
    let mut m = TaskManager::new();
    let mut t = table(vec![
        tcb(0, TaskStatus::Ready, 0x9000_0000, 16),
        tcb(1, TaskStatus::Ready, 0x8000_0000, 16),
    ]);
    m.add(0);
    m.add(1);
    assert_eq!(m.fetch(&mut t), Some(1));
    assert_eq!(t.get(1).stride, 0x8000_0000 + BIG_STRIDE / 16);
    assert_eq!(queue(&m), vec![0]);
}

#[test]
fn fetch_without_ready_task_takes_the_front() {
    let mut m = TaskManager::new();
    let mut t = table(vec![
        tcb(0, TaskStatus::Zombie, 3, 4),
        tcb(1, TaskStatus::Running, 0, 16),
    ]);
    m.add(0);
    m.add(1);
    assert_eq!(m.fetch(&mut t), Some(0));
    assert_eq!(t.get(0).stride, 3 + BIG_STRIDE / 4);
    assert_eq!(queue(&m), vec![1]);
}

#[test]
fn single_queued_task_is_fetched_whatever_its_stride() {
    let mut m = TaskManager::new();
    let mut t = table(vec![tcb(0, TaskStatus::Ready, 0x9000_0000, DEFAULT_PRIORITY)]);
    m.add(0);
    assert_eq!(m.fetch(&mut t), Some(0));
    assert!(m.ready_queue.is_empty());
    assert_eq!(t.get(0).stride, 0x9000_0000 + BIG_STRIDE / DEFAULT_PRIORITY);
}

#[test]
fn add_appends_to_the_back() {
    let mut m = TaskManager::new();
    m.add(4);
    m.add(2);
    m.add(9);
    assert_eq!(m.ready_queue, VecDeque::from(vec![4, 2, 9]));
}

#[test]
fn higher_priority_runs_more_often() {
    // two tasks fetched repeatedly: the one with priority 4 advances four
    // times slower than the one with priority 1, so it is picked more often
    let mut m = TaskManager::new();
    let mut t = table(vec![tcb(0, TaskStatus::Ready, 0, 4), tcb(1, TaskStatus::Ready, 0, 1)]);
    m.add(0);
    m.add(1);
    let mut counts = [0usize; 2];
    for _ in 0..10 {
        let p = m.fetch(&mut t).unwrap();
        counts[p] += 1;
        m.add(p);
    }
    assert!(counts[0] > counts[1]);
    assert_eq!(counts[0] + counts[1], 10);
}

#[test]
fn fetch_on_equal_strides_is_fifo() {
    let mut m = TaskManager::new();
    let mut t = table(vec![
        tcb(0, TaskStatus::Ready, 5, 2),
        tcb(1, TaskStatus::Ready, 5, 16),
        tcb(2, TaskStatus::Ready, 5, 8),
    ]);
    m.add(2);
    m.add(0);
    m.add(1);
    assert_eq!(m.fetch(&mut t), Some(2));
    assert_eq!(queue(&m), vec![0, 1]);
    assert_eq!(t.get(2).stride, 5 + BIG_STRIDE / 8);
    assert_eq!((t.get(0).stride, t.get(1).stride), (5, 5));
}

#[test]
fn fetch_leaves_the_other_queued_tasks_as_they_were() {
    let mut m = TaskManager::new();
    let mut t = table(vec![
        tcb(0, TaskStatus::Ready, 10, 2),
        tcb(1, TaskStatus::Ready, 4, 3),
        tcb(2, TaskStatus::Ready, 7, 16),
    ]);
    for p in 0..3 {
        m.add(p);
    }
    assert_eq!(m.fetch(&mut t), Some(1));
    let q = queue(&m);
    assert_eq!(q, vec![0, 2]);
    assert!(!q.contains(&1));
    assert_eq!((t.get(0).stride, t.get(0).priority, t.get(0).status), (10, 2, TaskStatus::Ready));
    assert_eq!((t.get(2).stride, t.get(2).priority, t.get(2).status), (7, 16, TaskStatus::Ready));
}
