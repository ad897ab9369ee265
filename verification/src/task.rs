//! Task control blocks and the table that holds them, indexed by pid.
use vstd::prelude::*;

use crate::config::MAX_SYSCALL_NUM;
use crate::mm::{MemorySet, Page};
use crate::trap_context::{TrapContext, TrapState};

verus! {

/// The life-cycle state of a task.
#[derive(Clone, Copy, Debug, PartialEq, Eq, Structural)]
pub enum TaskStatus {
    /// Not yet initialised.
    UnInit,
    /// Waiting in the ready queue to be picked by the scheduler.
    Ready,
    /// Running on the processor.
    Running,
    /// Exited, waiting for its parent to collect the exit code.
    Zombie,
}

/// The mathematical model of a task control block.
pub struct TaskState {
    pub pid: usize,
    pub status: TaskStatus,
    pub parent: Option<usize>,
    pub children: Seq<usize>,
    pub exit_code: i32,
    pub memory: Map<u64, Page>,
    pub heap: Option<(u64, u64)>,
    pub trap_cx: TrapState,
    pub base_size: u64,
    pub heap_bottom: u64,
    pub program_brk: u64,
    pub stride: u64,
    pub priority: u64,
    pub syscall_times: Seq<u32>,
    pub kernel_time: u64,
    pub user_time: u64,
}

/// A task (process) of the kernel.
pub struct TaskControlBlock {
    /// Process identifier; also the task's index in the task table.
    pub pid: usize,
    pub status: TaskStatus,
    /// Pid of the parent task, if any.
    pub parent: Option<usize>,
    /// Pids of the children that have not been reaped yet.
    pub children: Vec<usize>,
    /// Exit code, meaningful once the task is a zombie.
    pub exit_code: i32,
    /// The user pages of the task's address space.
    pub memory_set: MemorySet,
    /// The context the task returns to user mode with.
    pub trap_cx: TrapContext,
    /// Size of the user program image (top of its user stack).
    pub base_size: u64,
    /// Lowest address of the user heap.
    pub heap_bottom: u64,
    /// Current end of the user heap.
    pub program_brk: u64,
    /// Stride scheduling: the task's current pass value.
    pub stride: u64,
    /// Stride scheduling: the task's priority (its stride grows by `BIG_STRIDE / priority`).
    pub priority: u64,
    /// Number of calls of each system call.
    pub syscall_times: [u32; MAX_SYSCALL_NUM],
    /// Time spent in the kernel, in milliseconds.
    pub kernel_time: u64,
    /// Time spent in user mode, in milliseconds.
    pub user_time: u64,
}

impl View for TaskControlBlock {
    type V = TaskState;

    open spec fn view(&self) -> TaskState {
        TaskState {
            pid: self.pid,
            status: self.status,
            parent: self.parent,
            children: self.children@,
            exit_code: self.exit_code,
            memory: self.memory_set@,
            heap: self.memory_set.heap(),
            trap_cx: self.trap_cx@,
            base_size: self.base_size,
            heap_bottom: self.heap_bottom,
            program_brk: self.program_brk,
            stride: self.stride,
            priority: self.priority,
            syscall_times: self.syscall_times@,
            kernel_time: self.kernel_time,
            user_time: self.user_time,
        }
    }
}

/// A program ready to be loaded as a task: its user pages, the top of its
/// user stack and its entry point.
pub struct AppImage {
    pub memory_set: MemorySet,
    pub user_sp: u64,
    pub entry_point: u64,
}

/// The model of one slot of the task table.
pub open spec fn slot_view(slot: Option<TaskControlBlock>) -> Option<TaskState> {
    match slot {
        Some(t) => Some(t@),
        None => None,
    }
}

/// All tasks of the kernel, indexed by pid. A slot is empty once its task
/// has been reaped; pids are not reused.
pub struct TaskTable {
    slots: Vec<Option<TaskControlBlock>>,
}

impl View for TaskTable {
    type V = Seq<Option<TaskState>>;

    closed spec fn view(&self) -> Seq<Option<TaskState>> {
        self.slots@.map_values(|s: Option<TaskControlBlock>| slot_view(s))
    }
}

/// `pid` names a task of `tasks` that has not been reaped.
pub open spec fn is_live(tasks: Seq<Option<TaskState>>, pid: int) -> bool {
    0 <= pid < tasks.len() && tasks[pid] is Some
}

impl TaskTable {
    /// A table with no task.
    pub fn new() -> (t: Self)
        ensures
            t@ == Seq::<Option<TaskState>>::empty(),
    {
        let t = TaskTable { slots: Vec::new() };
        assert(t@ =~= Seq::<Option<TaskState>>::empty());
        t
    }

    /// Number of pids handed out so far.
    pub fn len(&self) -> (n: usize)
        ensures
            n == self@.len(),
    {
        self.slots.len()
    }

    /// Whether `pid` names a task that has not been reaped.
    pub fn is_live(&self, pid: usize) -> (b: bool)
        ensures
            b == is_live(self@, pid as int),
    {
        pid < self.slots.len() && self.slots[pid].is_some()
    }

    /// The task with pid `pid`.
    pub fn get(&self, pid: usize) -> (t: &TaskControlBlock)
        requires
            is_live(self@, pid as int),
        ensures
            Some(t@) == self@[pid as int],
    {
        match &self.slots[pid] {
            Some(t) => t,
            None => {
                proof {
                    assert(slot_view(self.slots@[pid as int]) == self@[pid as int]);
                }
                unreached()
            },
        }
    }

    /// Removes the task with pid `pid` from its slot and hands it out.
    pub fn take(&mut self, pid: usize) -> (t: TaskControlBlock)
        requires
            is_live(old(self)@, pid as int),
        ensures
            Some(t@) == old(self)@[pid as int],
            final(self)@ == old(self)@.update(pid as int, None),
    {
        let mut slot: Option<TaskControlBlock> = None;
        std::mem::swap(&mut slot, &mut self.slots[pid]);
        proof {
            assert(slot_view(old(self).slots@[pid as int]) == old(self)@[pid as int]);
            assert(self@ =~= old(self)@.update(pid as int, None));
        }
        match slot {
            Some(t) => t,
            None => unreached(),
        }
    }

    /// Stores `t` in slot `pid`.
    pub fn put(&mut self, pid: usize, t: TaskControlBlock)
        requires
            pid < old(self)@.len(),
        ensures
            final(self)@ == old(self)@.update(pid as int, Some(t@)),
    {
        self.slots[pid] = Some(t);
        proof {
            assert(self@ =~= old(self)@.update(pid as int, Some(t@)));
        }
    }

    /// Appends `t` in a new slot, whose index is the next pid.
    pub fn push(&mut self, t: TaskControlBlock)
        ensures
            final(self)@ == old(self)@.push(Some(t@)),
    {
        self.slots.push(Some(t));
        proof {
            assert(self@ =~= old(self)@.push(Some(t@)));
        }
    }
}

} // verus!
