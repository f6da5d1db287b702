//! The scheduler as a mathematical state machine.
//!
//! [`ManagerView`] is what a task manager stands for: the pool of tasks, how
//! many of them are loaded, and which one is current. Every operation of the
//! manager is a function on this state, and the manager's contracts say that
//! the executable code computes exactly these functions.

use vstd::prelude::*;
use vstd::arithmetic::div_mod::{lemma_fundamental_div_mod_converse, lemma_small_mod};
use crate::config::{MAX_APP_NUM, MAX_SYSCALL_NUM};
use crate::context::TaskContext;
use crate::info::TaskInfoView;
use crate::task::{TaskStatus, TaskView};

verus! {

/// The state of the scheduler.
#[verifier::ext_equal]
pub struct ManagerView {
    /// One entry for each slot of the pool.
    pub tasks: Seq<TaskView>,
    /// How many slots, counted from slot 0, hold a loaded program.
    pub num_app: int,
    /// The slot of the task that was dispatched last.
    pub current: int,
}

/// What the running task can ask of the scheduler.
pub enum Event {
    /// The running task yields; the clock reads `now`.
    Suspend { now: usize },
    /// The running task terminates; the clock reads `now`.
    Exit { now: usize },
    /// The running task makes the syscall `id`.
    Syscall { id: u16 },
}

impl ManagerView {
    /// The state at boot, with one loaded task for each entry of `contexts`
    /// and the rest of the pool empty.
    pub open spec fn initial(contexts: Seq<TaskContext>) -> ManagerView {
        ManagerView {
            tasks: Seq::new(
                MAX_APP_NUM as nat,
                |i: int|
                    if i < contexts.len() {
                        TaskView::loaded(contexts[i])
                    } else {
                        TaskView::uninit()
                    },
            ),
            num_app: contexts.len() as int,
            current: 0,
        }
    }

    /// What holds of the scheduler at all times. The pool has its fixed size,
    /// at least one task is loaded, the current slot is a loaded one, exactly
    /// the loaded slots have left `UnInit`, and no task but the current one is
    /// `Running`.
    pub open spec fn wf(self) -> bool {
        &&& self.tasks.len() == MAX_APP_NUM
        &&& 1 <= self.num_app <= MAX_APP_NUM
        &&& 0 <= self.current < self.num_app
        &&& forall|i: int| 0 <= i < self.tasks.len() ==> (#[trigger] self.tasks[i]).wf()
        &&& forall|i: int|
            0 <= i < self.tasks.len() ==> ((#[trigger] self.tasks[i]).status == TaskStatus::UnInit
                <==> self.num_app <= i)
        &&& forall|i: int|
            0 <= i < self.tasks.len() && (#[trigger] self.tasks[i]).status == TaskStatus::Running
                ==> i == self.current
    }

    /// The record of the current task.
    pub open spec fn current_task(self) -> TaskView {
        self.tasks[self.current]
    }

    /// No task has been dispatched yet: slot 0 is current and every loaded
    /// task is `Ready` and has never run.
    pub open spec fn is_fresh(self) -> bool {
        &&& self.current == 0
        &&& forall|i: int|
            0 <= i < self.num_app ==> (#[trigger] self.tasks[i]).status == TaskStatus::Ready
                && self.tasks[i].start_time is None
    }

    /// The current task is `Running`.
    pub open spec fn is_running(self) -> bool {
        self.current_task().status == TaskStatus::Running
    }

    /// The batch is complete: every loaded task is `Exited`.
    pub open spec fn is_halted(self) -> bool {
        forall|i: int|
            0 <= i < self.num_app ==> (#[trigger] self.tasks[i]).status == TaskStatus::Exited
    }

    /// Some loaded task is `Ready`.
    pub open spec fn has_ready(self) -> bool {
        exists|i: int|
            0 <= i < self.num_app && (#[trigger] self.tasks[i]).status == TaskStatus::Ready
    }

    /// One task of the pool is `Running` and no other.
    pub open spec fn exactly_one_running(self) -> bool {
        exists|i: int|
            {
                &&& 0 <= i < self.tasks.len()
                &&& (#[trigger] self.tasks[i]).status == TaskStatus::Running
                &&& forall|j: int|
                    0 <= j < self.tasks.len() && (#[trigger] self.tasks[j]).status
                        == TaskStatus::Running ==> j == i
            }
    }

    /// No task of the pool is `Running`.
    pub open spec fn none_running(self) -> bool {
        forall|i: int|
            0 <= i < self.tasks.len() ==> (#[trigger] self.tasks[i]).status != TaskStatus::Running
    }

    /// The slot looked at in step `k` of the search for the next task: the
    /// search starts behind the current slot and wraps round to end on it.
    pub open spec fn probe(self, k: int) -> int {
        (self.current + 1 + k) % self.num_app
    }

    /// Step `k` of the search is the first one that meets a `Ready` task.
    pub open spec fn first_ready_at(self, k: int) -> bool {
        &&& 0 <= k < self.num_app
        &&& self.tasks[self.probe(k)].status == TaskStatus::Ready
        &&& forall|j: int|
            0 <= j < k ==> self.tasks[#[trigger] self.probe(j)].status != TaskStatus::Ready
    }

    /// The task to dispatch next: the first `Ready` one in search order, if
    /// there is any.
    pub open spec fn find_next(self) -> Option<int> {
        if exists|k: int| self.first_ready_at(k) {
            Some(self.probe(choose|k: int| self.first_ready_at(k)))
        } else {
            None
        }
    }

    /// The state with the status of slot `id` set to `status`.
    pub open spec fn with_status(self, id: int, status: TaskStatus) -> ManagerView {
        ManagerView { tasks: self.tasks.update(id, TaskView { status, ..self.tasks[id] }), ..self }
    }

    /// The current task goes back to `Ready`.
    pub open spec fn mark_current_suspended(self) -> ManagerView {
        self.with_status(self.current, TaskStatus::Ready)
    }

    /// The current task becomes `Exited`.
    pub open spec fn mark_current_exited(self) -> ManagerView {
        self.with_status(self.current, TaskStatus::Exited)
    }

    /// Task `next` gets the processor at clock reading `now`: it becomes
    /// `Running` and current, and `now` becomes its start time unless it has
    /// one already.
    pub open spec fn dispatch(self, next: int, now: usize) -> ManagerView {
        let task = self.tasks[next];
        let start_time = if task.start_time is Some {
            task.start_time
        } else {
            Some(now)
        };
        ManagerView {
            tasks: self.tasks.update(
                next,
                TaskView { status: TaskStatus::Running, start_time, ..task },
            ),
            current: next,
            ..self
        }
    }

    /// The first dispatch: slot 0 gets the processor.
    pub open spec fn run_first_task(self, now: usize) -> ManagerView {
        self.dispatch(0, now)
    }

    /// The next `Ready` task gets the processor; where there is none, nothing
    /// changes.
    pub open spec fn run_next_task(self, now: usize) -> ManagerView {
        match self.find_next() {
            Some(next) => self.dispatch(next, now),
            None => self,
        }
    }

    /// The current task yields and the next one is dispatched.
    pub open spec fn suspend_current_and_run_next(self, now: usize) -> ManagerView {
        self.mark_current_suspended().run_next_task(now)
    }

    /// The current task terminates and the next one is dispatched.
    pub open spec fn exit_current_and_run_next(self, now: usize) -> ManagerView {
        self.mark_current_exited().run_next_task(now)
    }

    /// The current task is counted one more syscall `id`. An id outside the
    /// syscall-id space has no counter and changes nothing.
    pub open spec fn increase_syscall_count(self, id: u16) -> ManagerView {
        if id < MAX_SYSCALL_NUM {
            let task = self.current_task();
            let syscall_times = task.syscall_times.update(
                id as int,
                task.syscall_times[id as int] + 1,
            );
            ManagerView {
                tasks: self.tasks.update(self.current, TaskView { syscall_times, ..task }),
                ..self
            }
        } else {
            self
        }
    }

    /// The snapshot of the current task at clock reading `now`.
    pub open spec fn get_current_task_info(self, now: usize) -> TaskInfoView
        recommends
            self.current_task().start_time is Some,
            self.current_task().start_time->0 <= now,
    {
        let task = self.current_task();
        TaskInfoView {
            status: task.status,
            syscall_times: task.syscall_times,
            time: task.elapsed_ms(now),
        }
    }

    /// The state after the running task has asked `event`. A scheduler whose
    /// current task is not `Running` takes no request.
    pub open spec fn step(self, event: Event) -> ManagerView {
        if self.is_running() {
            match event {
                Event::Suspend { now } => self.suspend_current_and_run_next(now),
                Event::Exit { now } => self.exit_current_and_run_next(now),
                Event::Syscall { id } => self.increase_syscall_count(id),
            }
        } else {
            self
        }
    }

    /// The state after the requests `events`, in order.
    pub open spec fn run(self, events: Seq<Event>) -> ManagerView
        decreases events.len(),
    {
        if events.len() == 0 {
            self
        } else {
            self.run(events.drop_last()).step(events.last())
        }
    }
}

/// The search visits loaded slots only: step `k` looks at the slot `k + 1`
/// places behind the current one, counted round the loaded slots.
pub proof fn lemma_probe(s: ManagerView, k: int)
    requires
        s.wf(),
        0 <= k < s.num_app,
    ensures
        0 <= s.probe(k) < s.num_app,
        s.probe(k) == if s.current + 1 + k < s.num_app {
            s.current + 1 + k
        } else {
            s.current + 1 + k - s.num_app
        },
{
    let x = s.current + 1 + k;
    if x < s.num_app {
        lemma_small_mod(x as nat, s.num_app as nat);
    } else {
        lemma_fundamental_div_mod_converse(x, s.num_app, 1, x - s.num_app);
    }
}

/// The search visits every loaded slot: slot `id` is looked at in the step
/// that this lemma returns.
pub proof fn lemma_probe_reaches(s: ManagerView, id: int) -> (k: int)
    requires
        s.wf(),
        0 <= id < s.num_app,
    ensures
        0 <= k < s.num_app,
        s.probe(k) == id,
{
    let k = if id > s.current {
        id - s.current - 1
    } else {
        id - s.current - 1 + s.num_app
    };
    lemma_probe(s, k);
    k
}

/// Where a step of the search meets a `Ready` task, some step not after it is
/// the first to do so.
proof fn lemma_first_ready_exists(s: ManagerView, k: int) -> (first: int)
    requires
        0 <= k < s.num_app,
        s.tasks[s.probe(k)].status == TaskStatus::Ready,
    ensures
        0 <= first <= k,
        s.first_ready_at(first),
    decreases k,
{
    if exists|j: int| 0 <= j < k && s.tasks[#[trigger] s.probe(j)].status == TaskStatus::Ready {
        let j = choose|j: int|
            0 <= j < k && s.tasks[#[trigger] s.probe(j)].status == TaskStatus::Ready;
        lemma_first_ready_exists(s, j)
    } else {
        k
    }
}

/// What `find_next` returns. It is `Some(id)` exactly where `id` is the first
/// `Ready` slot in search order, and such an `id` is a loaded slot; it is
/// `None` exactly where no loaded task is `Ready`.
pub proof fn lemma_find_next(s: ManagerView)
    requires
        s.wf(),
    ensures
        s.find_next() is Some <==> s.has_ready(),
        forall|k: int| s.first_ready_at(k) ==> s.find_next() == Some(s.probe(k)),
        s.find_next() matches Some(id) ==> {
            &&& 0 <= id < s.num_app
            &&& s.tasks[id].status == TaskStatus::Ready
            &&& exists|k: int| s.first_ready_at(k) && id == s.probe(k)
        },
{
    assert forall|k: int| s.first_ready_at(k) implies s.find_next() == Some(s.probe(k)) by {
        let c = choose|c: int| s.first_ready_at(c);
        // Two first steps are the same step: neither comes before the other.
        if c < k {
            assert(s.tasks[s.probe(c)].status != TaskStatus::Ready);
        }
        if k < c {
            assert(s.tasks[s.probe(k)].status != TaskStatus::Ready);
        }
    }
    if s.has_ready() {
        let id = choose|i: int|
            0 <= i < s.num_app && (#[trigger] s.tasks[i]).status == TaskStatus::Ready;
        let k = lemma_probe_reaches(s, id);
        let first = lemma_first_ready_exists(s, k);
        assert(s.find_next() is Some);
    }
    if s.find_next() is Some {
        let c = choose|c: int| s.first_ready_at(c);
        lemma_probe(s, c);
        assert(s.tasks[s.probe(c)].status == TaskStatus::Ready);
        assert(s.has_ready());
    }
}

/// Dispatching a `Ready` task while none is `Running` gives a state in which
/// that task, and no other, is `Running`.
pub proof fn lemma_dispatch(s: ManagerView, next: int, now: usize)
    requires
        s.wf(),
        !s.is_running(),
        0 <= next < s.num_app,
        s.tasks[next].status == TaskStatus::Ready,
    ensures
        s.dispatch(next, now).wf(),
        s.dispatch(next, now).is_running(),
        s.dispatch(next, now).current == next,
{
    let t = s.dispatch(next, now);
    assert forall|i: int| 0 <= i < t.tasks.len() implies (#[trigger] t.tasks[i]).wf() by {
        assert(s.tasks[i].wf());
    }
    assert forall|i: int| 0 <= i < t.tasks.len() implies ((#[trigger] t.tasks[i]).status
        == TaskStatus::UnInit <==> t.num_app <= i) by {
        assert(s.tasks[i].status == TaskStatus::UnInit <==> s.num_app <= i);
    }
    assert forall|i: int|
        0 <= i < t.tasks.len() && (#[trigger] t.tasks[i]).status
            == TaskStatus::Running implies i == t.current by {
        if i != next {
            assert(s.tasks[i].status == TaskStatus::Running);
        }
    }
}

/// A running task that yields is dispatched again or makes way for another:
/// the search always finds a task, at the latest the one that yielded.
pub proof fn lemma_suspend(s: ManagerView, now: usize)
    requires
        s.wf(),
        s.is_running(),
    ensures
        s.mark_current_suspended().wf(),
        !s.mark_current_suspended().is_running(),
        s.mark_current_suspended().find_next() is Some,
        s.suspend_current_and_run_next(now).wf(),
        s.suspend_current_and_run_next(now).is_running(),
        Some(s.suspend_current_and_run_next(now).current)
            == s.mark_current_suspended().find_next(),
{
    let m = s.mark_current_suspended();
    assert forall|i: int| 0 <= i < m.tasks.len() implies (#[trigger] m.tasks[i]).wf() by {
        assert(s.tasks[i].wf());
    }
    assert forall|i: int| 0 <= i < m.tasks.len() implies ((#[trigger] m.tasks[i]).status
        == TaskStatus::UnInit <==> m.num_app <= i) by {
        assert(s.tasks[i].status == TaskStatus::UnInit <==> s.num_app <= i);
    }
    assert forall|i: int|
        0 <= i < m.tasks.len() && (#[trigger] m.tasks[i]).status
            == TaskStatus::Running implies i == m.current by {
        assert(s.tasks[i].status == TaskStatus::Running);
    }
    assert(m.tasks[m.current].status == TaskStatus::Ready);
    assert(m.has_ready());
    lemma_find_next(m);
    lemma_dispatch(m, m.find_next()->0, now);
}

/// A running task that terminates makes way for the next `Ready` task; where
/// there is none, every loaded task has exited and the batch is complete.
pub proof fn lemma_exit(s: ManagerView, now: usize)
    requires
        s.wf(),
        s.is_running(),
    ensures
        s.mark_current_exited().wf(),
        !s.mark_current_exited().is_running(),
        s.exit_current_and_run_next(now).wf(),
        match s.mark_current_exited().find_next() {
            Some(next) => {
                &&& s.exit_current_and_run_next(now).is_running()
                &&& s.exit_current_and_run_next(now).current == next
                &&& !s.exit_current_and_run_next(now).is_halted()
            },
            None => {
                &&& s.exit_current_and_run_next(now) == s.mark_current_exited()
                &&& s.exit_current_and_run_next(now).is_halted()
            },
        },
{
    let m = s.mark_current_exited();
    assert forall|i: int| 0 <= i < m.tasks.len() implies (#[trigger] m.tasks[i]).wf() by {
        assert(s.tasks[i].wf());
    }
    assert forall|i: int| 0 <= i < m.tasks.len() implies ((#[trigger] m.tasks[i]).status
        == TaskStatus::UnInit <==> m.num_app <= i) by {
        assert(s.tasks[i].status == TaskStatus::UnInit <==> s.num_app <= i);
    }
    assert forall|i: int|
        0 <= i < m.tasks.len() && (#[trigger] m.tasks[i]).status
            == TaskStatus::Running implies i == m.current by {
        assert(s.tasks[i].status == TaskStatus::Running);
    }
    lemma_find_next(m);
    match m.find_next() {
        Some(next) => {
            lemma_dispatch(m, next, now);
            let t = m.dispatch(next, now);
            assert(t.tasks[next].status == TaskStatus::Running);
        },
        None => {
            assert forall|i: int| 0 <= i < m.num_app implies (#[trigger] m.tasks[i]).status
                == TaskStatus::Exited by {
                assert(!(m.tasks[i].status == TaskStatus::UnInit));
                assert(!(m.tasks[i].status == TaskStatus::Ready));
                if m.tasks[i].status == TaskStatus::Running {
                    assert(i == m.current);
                }
            }
        },
    }
}

/// Counting a syscall changes one counter of the running task and nothing
/// else.
pub proof fn lemma_syscall(s: ManagerView, id: u16)
    requires
        s.wf(),
        s.is_running(),
    ensures
        s.increase_syscall_count(id).wf(),
        s.increase_syscall_count(id).is_running(),
        s.increase_syscall_count(id).current == s.current,
{
    let t = s.increase_syscall_count(id);
    assert forall|i: int| 0 <= i < t.tasks.len() implies (#[trigger] t.tasks[i]).wf() by {
        assert(s.tasks[i].wf());
    }
    assert forall|i: int| 0 <= i < t.tasks.len() implies ((#[trigger] t.tasks[i]).status
        == TaskStatus::UnInit <==> t.num_app <= i) by {
        assert(s.tasks[i].status == TaskStatus::UnInit <==> s.num_app <= i);
    }
    assert forall|i: int|
        0 <= i < t.tasks.len() && (#[trigger] t.tasks[i]).status
            == TaskStatus::Running implies i == t.current by {
        assert(s.tasks[i].status == TaskStatus::Running);
    }
}

} // verus!
