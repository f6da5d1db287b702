//! The per-task record and its mathematical model.

use vstd::prelude::*;
use std::collections::BTreeMap;
use crate::config::MAX_SYSCALL_NUM;
use crate::context::TaskContext;

verus! {

/// Where a task stands in its life: `UnInit -> Ready -> Running`, then back to
/// `Ready` any number of times, and at last `Exited`.
#[derive(Clone, Copy, Debug, PartialEq, Eq, Structural)]
pub enum TaskStatus {
    /// The slot holds no program.
    UnInit,
    /// The task can be dispatched.
    Ready,
    /// The task owns the processor.
    Running,
    /// The task has finished and never runs again.
    Exited,
}

/// What a task control block stands for.
#[verifier::ext_equal]
pub struct TaskView {
    /// Where the task stands in its life.
    pub status: TaskStatus,
    /// The context kept for the task: blank in an empty slot, the entry
    /// context in a loaded one.
    pub context: TaskContext,
    /// How often the task has made each syscall: one entry for every id of the
    /// syscall-id space.
    pub syscall_times: Seq<nat>,
    /// The clock reading, in microseconds, of the task's first dispatch.
    pub start_time: Option<usize>,
}

impl TaskView {
    /// A slot before the loader has filled it.
    pub open spec fn uninit() -> TaskView {
        TaskView {
            status: TaskStatus::UnInit,
            context: TaskContext::zero(),
            syscall_times: Seq::new(MAX_SYSCALL_NUM as nat, |id: int| 0nat),
            start_time: None,
        }
    }

    /// A freshly loaded task with the entry context `context`.
    pub open spec fn loaded(context: TaskContext) -> TaskView {
        TaskView { status: TaskStatus::Ready, context, ..Self::uninit() }
    }

    /// The task has never been counted a syscall.
    pub open spec fn no_syscalls(self) -> bool {
        forall|id: int| 0 <= id < self.syscall_times.len() ==> self.syscall_times[id] == 0
    }

    /// What holds of every task at all times: it has a counter for each syscall
    /// id, it has a start time once it has run, and it has made no syscall
    /// before it first ran.
    pub open spec fn wf(self) -> bool {
        &&& self.syscall_times.len() == MAX_SYSCALL_NUM
        &&& (self.status == TaskStatus::Running || self.status == TaskStatus::Exited)
            ==> self.start_time is Some
        &&& self.status == TaskStatus::UnInit ==> self.start_time is None
        &&& self.start_time is None ==> self.no_syscalls()
    }

    /// Whole milliseconds between the task's first dispatch and the clock
    /// reading `now`.
    pub open spec fn elapsed_ms(self, now: usize) -> int
        recommends
            self.start_time is Some,
            self.start_time->0 <= now,
    {
        (now - self.start_time->0) / 1000
    }
}

/// The record the scheduler keeps of one task.
pub struct TaskControlBlock {
    /// The context kept for the task: blank in an empty slot, the entry
    /// context in a loaded one.
    pub task_cx: TaskContext,
    /// Where the task stands in its life.
    pub task_status: TaskStatus,
    /// Syscall counters by id; an id without an entry has count zero.
    pub syscall_times: BTreeMap<u16, u32>,
    /// The clock reading of the first dispatch, once there has been one.
    pub start_time: Option<usize>,
}

impl TaskControlBlock {
    /// The count recorded for syscall `id`: zero where the map has no entry.
    pub open spec fn count(self, id: int) -> nat {
        if 0 <= id <= u16::MAX && self.syscall_times@.contains_key(id as u16) {
            self.syscall_times@[id as u16] as nat
        } else {
            0
        }
    }

    /// Every counter is for an id of the syscall-id space.
    pub open spec fn counters_in_range(self) -> bool {
        forall|id: u16| self.syscall_times@.contains_key(id) ==> id < MAX_SYSCALL_NUM
    }

    /// What the scheduler keeps true of every block: the counters are for ids
    /// of the syscall-id space, a task that has run has a start time, and a
    /// task that has not has no counter yet.
    pub open spec fn wf(self) -> bool {
        &&& self.counters_in_range()
        &&& (self.task_status == TaskStatus::Running || self.task_status == TaskStatus::Exited)
            ==> self.start_time is Some
        &&& self.task_status == TaskStatus::UnInit ==> self.start_time is None
        &&& self.start_time is None ==> forall|id: u16| !self.syscall_times@.contains_key(id)
    }

    /// A well-formed block stands for a well-formed task.
    pub proof fn lemma_view_wf(self)
        requires
            self.wf(),
        ensures
            self@.wf(),
    {
    }
}

impl View for TaskControlBlock {
    type V = TaskView;

    open spec fn view(&self) -> TaskView {
        TaskView {
            status: self.task_status,
            context: self.task_cx,
            syscall_times: Seq::new(MAX_SYSCALL_NUM as nat, |id: int| self.count(id)),
            start_time: self.start_time,
        }
    }
}

} // verus!
