//! The snapshot of a task that introspection hands out.

use vstd::prelude::*;
use crate::config::MAX_SYSCALL_NUM;
use crate::task::TaskStatus;

verus! {

/// A read-only snapshot of one task.
#[derive(Clone, Copy, Debug, PartialEq, Eq)]
pub struct TaskInfo {
    /// Where the task stood when the snapshot was taken.
    pub status: TaskStatus,
    /// How often the task had made each syscall, by syscall id.
    pub syscall_times: [u32; MAX_SYSCALL_NUM],
    /// Whole milliseconds since the task was first dispatched.
    pub time: usize,
}

/// What a snapshot stands for.
#[verifier::ext_equal]
pub struct TaskInfoView {
    /// Where the task stood.
    pub status: TaskStatus,
    /// The syscall counts, one entry for each id of the syscall-id space.
    pub syscall_times: Seq<nat>,
    /// Whole milliseconds since the first dispatch.
    pub time: int,
}

impl View for TaskInfo {
    type V = TaskInfoView;

    open spec fn view(&self) -> TaskInfoView {
        TaskInfoView {
            status: self.status,
            syscall_times: Seq::new(
                MAX_SYSCALL_NUM as nat,
                |id: int| self.syscall_times[id] as nat,
            ),
            time: self.time as int,
        }
    }
}

} // verus!
