//! Cooperative round-robin scheduling for a fixed batch of programs on one
//! processor.
//!
//! The [`TaskManager`] owns a pool of task control blocks and decides which
//! task runs next when the running one yields or exits. It keeps the
//! bookkeeping and returns decisions; reading the clock and switching the
//! processor from one context to another are left to the caller.
//!
//! Every operation is specified as a function on [`ManagerView`], the
//! mathematical state of the scheduler, and the module [`laws`] proves what
//! holds of that state over whole runs.

pub mod config;
pub mod context;
pub mod info;
pub mod laws;
pub mod manager;
pub mod model;
pub mod task;

pub use config::{MAX_APP_NUM, MAX_SYSCALL_NUM};
pub use context::TaskContext;
pub use info::TaskInfo;
pub use manager::{
    exit_current_and_run_next, get_current_task_info, increase_syscall_count, run_first_task,
    suspend_current_and_run_next, Dispatch, TaskManager,
};
pub use model::{Event, ManagerView};
pub use task::{TaskControlBlock, TaskStatus};
