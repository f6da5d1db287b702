//! The task manager: the pool of task control blocks and the dispatch logic.

use vstd::prelude::*;
use std::collections::BTreeMap;
use crate::config::{MAX_APP_NUM, MAX_SYSCALL_NUM};
use crate::context::TaskContext;
use crate::info::TaskInfo;
use crate::model::{
    lemma_exit, lemma_find_next, lemma_probe, lemma_suspend, Event, ManagerView,
};
use crate::task::{TaskControlBlock, TaskStatus, TaskView};

verus! {

/// What the caller has to do after a dispatch decision.
#[derive(Clone, Copy, Debug, PartialEq, Eq, Structural)]
pub enum Dispatch {
    /// Save the processor state into the context of slot `from`, then resume
    /// from the context of slot `to`.
    Switch { from: usize, to: usize },
    /// No task is left to run: every loaded program has exited. The caller
    /// halts the machine.
    BatchComplete,
}

/// The task manager. It owns the fixed pool of task control blocks and knows
/// which task is current.
///
/// The manager decides; it does not switch. Each scheduling operation changes
/// the bookkeeping and tells the caller which contexts to switch between.
pub struct TaskManager {
    /// Number of loaded tasks.
    num_app: usize,
    /// The pool, one block for each slot.
    tasks: Vec<TaskControlBlock>,
    /// Slot of the task that was dispatched last.
    current_task: usize,
}

impl View for TaskManager {
    type V = ManagerView;

    closed spec fn view(&self) -> ManagerView {
        ManagerView {
            tasks: Seq::new(self.tasks.len() as nat, |i: int| self.tasks[i]@),
            num_app: self.num_app as int,
            current: self.current_task as int,
        }
    }
}

impl TaskManager {
    /// What the representation keeps true at all times: the well-formedness of
    /// the state it stands for, said of the blocks themselves.
    #[verifier::type_invariant]
    spec fn inv(self) -> bool {
        &&& self.tasks.len() == MAX_APP_NUM
        &&& 1 <= self.num_app <= MAX_APP_NUM
        &&& self.current_task < self.num_app
        &&& forall|i: int| 0 <= i < self.tasks.len() ==> (#[trigger] self.tasks[i]).wf()
        &&& forall|i: int|
            0 <= i < self.tasks.len() ==> ((#[trigger] self.tasks[i]).task_status
                == TaskStatus::UnInit <==> self.num_app <= i)
        &&& forall|i: int|
            0 <= i < self.tasks.len() && (#[trigger] self.tasks[i]).task_status
                == TaskStatus::Running ==> i == self.current_task
    }

    /// The invariant of the representation gives that of the state.
    proof fn lemma_inv(self)
        requires
            self.inv(),
        ensures
            self@.wf(),
    {
        assert forall|i: int| 0 <= i < self@.tasks.len() implies (#[trigger] self@.tasks[i]).wf() by {
            self.tasks[i].lemma_view_wf();
        }
    }

    /// Builds the manager at boot. Every slot of the pool starts `UnInit` with
    /// a blank context; then the first `contexts.len()` slots become `Ready`,
    /// slot `i` with the entry context `contexts[i]`.
    ///
    /// There is no manager without a task or with more tasks than slots.
    pub fn new(contexts: Vec<TaskContext>) -> (manager: Option<TaskManager>)
        ensures
            manager is Some <==> 1 <= contexts.len() <= MAX_APP_NUM,
            manager matches Some(m) ==> {
                &&& m@ == ManagerView::initial(contexts@)
                &&& m@.wf()
                &&& m@.is_fresh()
            },
    {
        let num_app = contexts.len();
        if num_app == 0 || num_app > MAX_APP_NUM {
            return None;
        }
        let mut tasks: Vec<TaskControlBlock> = Vec::new();
        let mut i: usize = 0;
        while i < MAX_APP_NUM
            invariant
                i <= MAX_APP_NUM,
                tasks.len() == i,
                forall|j: int|
                    0 <= j < i ==> {
                        &&& (#[trigger] tasks[j]).task_status == TaskStatus::UnInit
                        &&& tasks[j].task_cx == TaskContext::zero()
                        &&& tasks[j].syscall_times@ == Map::<u16, u32>::empty()
                        &&& tasks[j].start_time is None
                    },
            decreases MAX_APP_NUM - i,
        {
            tasks.push(
                TaskControlBlock {
                    task_cx: TaskContext::zero_init(),
                    task_status: TaskStatus::UnInit,
                    syscall_times: BTreeMap::new(),
                    start_time: None,
                },
            );
            i += 1;
        }
        let mut i: usize = 0;
        while i < num_app
            invariant
                i <= num_app <= MAX_APP_NUM,
                num_app == contexts.len(),
                tasks.len() == MAX_APP_NUM,
                forall|j: int|
                    0 <= j < i ==> {
                        &&& (#[trigger] tasks[j]).task_status == TaskStatus::Ready
                        &&& tasks[j].task_cx == contexts[j]
                    },
                forall|j: int|
                    i <= j < MAX_APP_NUM ==> {
                        &&& (#[trigger] tasks[j]).task_status == TaskStatus::UnInit
                        &&& tasks[j].task_cx == TaskContext::zero()
                    },
                forall|j: int|
                    0 <= j < MAX_APP_NUM ==> {
                        &&& (#[trigger] tasks[j]).syscall_times@ == Map::<u16, u32>::empty()
                        &&& tasks[j].start_time is None
                    },
            decreases num_app - i,
        {
            tasks[i].task_cx = contexts[i];
            tasks[i].task_status = TaskStatus::Ready;
            i += 1;
        }
        let manager = TaskManager { num_app, tasks, current_task: 0 };
        proof {
            let initial = ManagerView::initial(contexts@);
            assert forall|j: int| 0 <= j < MAX_APP_NUM implies #[trigger] manager@.tasks[j]
                == initial.tasks[j] by {
                assert(manager.tasks[j]@.syscall_times =~= TaskView::uninit().syscall_times);
            }
            assert(manager@ =~= initial);
            manager.lemma_inv();
        }
        Some(manager)
    }

    /// Number of loaded tasks.
    pub fn num_app(&self) -> (n: usize)
        ensures
            n == self@.num_app,
            self@.wf(),
    {
        proof {
            use_type_invariant(self);
            self.lemma_inv();
        }
        self.num_app
    }

    /// Slot of the current task.
    pub fn current_task(&self) -> (id: usize)
        ensures
            id == self@.current,
            self@.wf(),
    {
        proof {
            use_type_invariant(self);
            self.lemma_inv();
        }
        self.current_task
    }

    /// Status of the current task.
    pub fn current_status(&self) -> (status: TaskStatus)
        ensures
            status == self@.current_task().status,
            self@.wf(),
    {
        proof {
            use_type_invariant(self);
            self.lemma_inv();
        }
        self.tasks[self.current_task].task_status
    }

    /// Start time of the current task: the clock reading of its first
    /// dispatch, or `None` if it has never run.
    pub fn current_start_time(&self) -> (start: Option<usize>)
        ensures
            start == self@.current_task().start_time,
            self@.wf(),
    {
        proof {
            use_type_invariant(self);
            self.lemma_inv();
        }
        self.tasks[self.current_task].start_time
    }

    /// Status of the task in slot `id`, or `None` where the pool has no such
    /// slot.
    pub fn task_status(&self, id: usize) -> (status: Option<TaskStatus>)
        ensures
            self@.wf(),
            match status {
                Some(st) => id < MAX_APP_NUM && st == self@.tasks[id as int].status,
                None => id >= MAX_APP_NUM,
            },
    {
        proof {
            use_type_invariant(self);
            self.lemma_inv();
        }
        if id < MAX_APP_NUM {
            Some(self.tasks[id].task_status)
        } else {
            None
        }
    }

    /// Context of the task in slot `id`, or `None` where the pool has no such
    /// slot.
    pub fn task_cx(&self, id: usize) -> (cx: Option<TaskContext>)
        ensures
            self@.wf(),
            match cx {
                Some(c) => id < MAX_APP_NUM && c == self@.tasks[id as int].context,
                None => id >= MAX_APP_NUM,
            },
    {
        proof {
            use_type_invariant(self);
            self.lemma_inv();
        }
        if id < MAX_APP_NUM {
            Some(self.tasks[id].task_cx)
        } else {
            None
        }
    }

    /// How often the current task has been counted the syscall `syscall_id`.
    /// An id outside the syscall-id space has no counter and reads as zero.
    pub fn syscall_count(&self, syscall_id: u16) -> (count: u32)
        ensures
            self@.wf(),
            count == if syscall_id < MAX_SYSCALL_NUM {
                self@.current_task().syscall_times[syscall_id as int]
            } else {
                0
            },
    {
        proof {
            use_type_invariant(self);
            self.lemma_inv();
        }
        match self.tasks[self.current_task].syscall_times.get(&syscall_id) {
            Some(count) => *count,
            None => 0,
        }
    }

    /// Whether no task has been dispatched yet.
    pub fn is_fresh(&self) -> (fresh: bool)
        ensures
            self@.wf(),
            fresh == self@.is_fresh(),
    {
        proof {
            use_type_invariant(self);
            self.lemma_inv();
        }
        if self.current_task != 0 {
            return false;
        }
        let mut i: usize = 0;
        while i < self.num_app
            invariant
                self@.wf(),
                self.tasks.len() == MAX_APP_NUM,
                self.num_app == self@.num_app,
                self@.current == 0,
                i <= self.num_app,
                forall|j: int|
                    0 <= j < i ==> (#[trigger] self@.tasks[j]).status == TaskStatus::Ready
                        && self@.tasks[j].start_time is None,
            decreases self.num_app - i,
        {
            let ready = self.tasks[i].task_status == TaskStatus::Ready;
            let unstarted = match self.tasks[i].start_time {
                Some(_) => false,
                None => true,
            };
            if !(ready && unstarted) {
                assert(!(self@.tasks[i as int].status == TaskStatus::Ready
                    && self@.tasks[i as int].start_time is None));
                return false;
            }
            i += 1;
        }
        true
    }

    /// Starts the batch: slot 0 becomes `Running` with `now` as its start
    /// time. The result is the slot whose context the caller switches into,
    /// never to come back.
    pub fn run_first_task(&mut self, now: usize) -> (first: usize)
        requires
            old(self)@.is_fresh(),
        ensures
            final(self)@ == old(self)@.run_first_task(now),
            final(self)@.wf(),
            final(self)@.is_running(),
            first == 0,
    {
        proof {
            use_type_invariant(&*self);
            self.lemma_inv();
        }
        start_task(&mut self.tasks, 0, now);
        proof {
            use_type_invariant(&*self);
            self.lemma_inv();
            assert(self@ =~~= old(self)@.run_first_task(now));
        }
        0
    }

    /// Changes the status of the current task from `Running` to `Ready`.
    pub fn mark_current_suspended(&mut self)
        requires
            old(self)@.is_running(),
        ensures
            final(self)@ == old(self)@.mark_current_suspended(),
            final(self)@.wf(),
    {
        proof {
            use_type_invariant(&*self);
            self.lemma_inv();
        }
        let current = self.current_task;
        set_status(&mut self.tasks, current, TaskStatus::Ready);
        proof {
            use_type_invariant(&*self);
            self.lemma_inv();
            assert(self@ =~~= old(self)@.mark_current_suspended());
        }
    }

    /// Changes the status of the current task from `Running` to `Exited`.
    pub fn mark_current_exited(&mut self)
        requires
            old(self)@.is_running(),
        ensures
            final(self)@ == old(self)@.mark_current_exited(),
            final(self)@.wf(),
    {
        proof {
            use_type_invariant(&*self);
            self.lemma_inv();
        }
        let current = self.current_task;
        set_status(&mut self.tasks, current, TaskStatus::Exited);
        proof {
            use_type_invariant(&*self);
            self.lemma_inv();
            assert(self@ =~~= old(self)@.mark_current_exited());
        }
    }

    /// Finds the task to dispatch next: the first `Ready` task met when the
    /// loaded slots are searched in a circle that starts behind the current
    /// slot and ends on it. `None` means that no loaded task is `Ready`.
    pub fn find_next_task(&self) -> (next: Option<usize>)
        ensures
            self@.wf(),
            match next {
                Some(id) => self@.find_next() == Some(id as int),
                None => self@.find_next() is None,
            },
            next is Some <==> self@.has_ready(),
    {
        proof {
            use_type_invariant(self);
            self.lemma_inv();
            lemma_find_next(self@);
        }
        let current = self.current_task;
        let mut id = current + 1;
        while id < current + self.num_app + 1
            invariant
                self@.wf(),
                current == self@.current,
                self.num_app == self@.num_app,
                self.tasks.len() == MAX_APP_NUM,
                current + 1 <= id <= current + self.num_app + 1,
                forall|j: int|
                    0 <= j < id - current - 1 ==> self@.tasks[#[trigger] self@.probe(j)].status
                        != TaskStatus::Ready,
                forall|k: int| self@.first_ready_at(k) ==> self@.find_next() == Some(self@.probe(k)),
            decreases current + self.num_app + 1 - id,
        {
            let candidate = id % self.num_app;
            proof {
                lemma_probe(self@, id - current - 1);
            }
            if self.tasks[candidate].task_status == TaskStatus::Ready {
                assert(self@.first_ready_at(id - current - 1));
                return Some(candidate);
            }
            id += 1;
        }
        None
    }

    /// Gives the processor to the next `Ready` task: that task becomes
    /// `Running` and current, and `now` becomes its start time if it has never
    /// run. The result tells the caller which contexts to switch between.
    ///
    /// Where no task is `Ready` nothing changes and the result is
    /// `BatchComplete`.
    pub fn run_next_task(&mut self, now: usize) -> (action: Dispatch)
        requires
            !old(self)@.is_running(),
        ensures
            final(self)@ == old(self)@.run_next_task(now),
            final(self)@.wf(),
            match old(self)@.find_next() {
                Some(next) => action == (Dispatch::Switch {
                    from: old(self)@.current as usize,
                    to: next as usize,
                }),
                None => action == Dispatch::BatchComplete,
            },
    {
        proof {
            use_type_invariant(&*self);
            self.lemma_inv();
            lemma_find_next(self@);
        }
        match self.find_next_task() {
            Some(next) => {
                let current = self.current_task;
                self.current_task = next;
                start_task(&mut self.tasks, next, now);
                proof {
                    use_type_invariant(&*self);
                    self.lemma_inv();
                    assert(self@ =~~= old(self)@.run_next_task(now));
                }
                Dispatch::Switch { from: current, to: next }
            },
            None => Dispatch::BatchComplete,
        }
    }

    /// Counts one more syscall `syscall_id` for the current task.
    ///
    /// Only the ids below `MAX_SYSCALL_NUM` have a counter: a call with any
    /// other id is ignored and changes nothing.
    pub fn increase_syscall_count(&mut self, syscall_id: u16)
        requires
            old(self)@.is_running(),
            syscall_id < MAX_SYSCALL_NUM ==> old(self)@.current_task().syscall_times[syscall_id as int]
                < u32::MAX,
        ensures
            final(self)@ == old(self)@.increase_syscall_count(syscall_id),
            final(self)@.wf(),
            final(self)@.is_running(),
    {
        proof {
            use_type_invariant(&*self);
            self.lemma_inv();
        }
        if (syscall_id as usize) < MAX_SYSCALL_NUM {
            let current = self.current_task;
            // The counters leave the pool while they change, so that the pool
            // is in order at every moment.
            let mut counters: BTreeMap<u16, u32> = BTreeMap::new();
            swap_counters(&mut self.tasks, current, &mut counters);
            let count = match counters.get(&syscall_id) {
                Some(count) => *count,
                None => 0,
            };
            counters.insert(syscall_id, count + 1);
            swap_counters(&mut self.tasks, current, &mut counters);
            proof {
                use_type_invariant(&*self);
                self.lemma_inv();
                assert(self@ =~~= old(self)@.increase_syscall_count(syscall_id));
            }
        }
    }

    /// Takes a snapshot of the current task at clock reading `now`: its
    /// status, its syscall counts spread out over the whole syscall-id space
    /// (an id that was never counted reads zero), and the whole milliseconds
    /// since its first dispatch.
    pub fn get_current_task_info(&self, now: usize) -> (info: TaskInfo)
        requires
            self@.current_task().start_time is Some,
            self@.current_task().start_time->0 <= now,
        ensures
            info@ == self@.get_current_task_info(now),
    {
        proof {
            use_type_invariant(self);
            self.lemma_inv();
        }
        let task = &self.tasks[self.current_task];
        let mut count = [0u32;MAX_SYSCALL_NUM];
        let mut id: usize = 0;
        while id < MAX_SYSCALL_NUM
            invariant
                id <= MAX_SYSCALL_NUM,
                forall|j: int| 0 <= j < id ==> count[j] == task.count(j),
                forall|j: int| id <= j < MAX_SYSCALL_NUM ==> count[j] == 0,
            decreases MAX_SYSCALL_NUM - id,
        {
            match task.syscall_times.get(&(id as u16)) {
                Some(times) => {
                    count[id] = *times;
                },
                None => {},
            }
            id += 1;
        }
        let info = TaskInfo {
            status: task.task_status,
            syscall_times: count,
            time: (now - task.start_time.unwrap()) / 1000,
        };
        assert(info@ =~~= self@.get_current_task_info(now));
        info
    }
}

/// Starts the batch on `manager`: slot 0 becomes `Running` with `now` as its
/// start time. The result is the slot whose context the caller switches into,
/// never to come back.
pub fn run_first_task(manager: &mut TaskManager, now: usize) -> (first: usize)
    requires
        old(manager)@.is_fresh(),
    ensures
        final(manager)@ == old(manager)@.run_first_task(now),
        final(manager)@.wf(),
        final(manager)@.is_running(),
        first == 0,
{
    manager.run_first_task(now)
}

/// The running task yields: it goes back to `Ready` and the next `Ready` task
/// in search order is dispatched, which is the task itself where no other is
/// `Ready`. The result names the contexts to switch between.
pub fn suspend_current_and_run_next(manager: &mut TaskManager, now: usize) -> (action: Dispatch)
    requires
        old(manager)@.is_running(),
    ensures
        final(manager)@ == old(manager)@.suspend_current_and_run_next(now),
        final(manager)@ == old(manager)@.step(Event::Suspend { now }),
        final(manager)@.wf(),
        final(manager)@.is_running(),
        Some(final(manager)@.current) == old(manager)@.mark_current_suspended().find_next(),
        action == (Dispatch::Switch {
            from: old(manager)@.current as usize,
            to: final(manager)@.current as usize,
        }),
{
    proof {
        use_type_invariant(&*manager);
        manager.lemma_inv();
        lemma_suspend(manager@, now);
    }
    manager.mark_current_suspended();
    manager.run_next_task(now)
}

/// The running task terminates: it becomes `Exited` for good and the next
/// `Ready` task in search order is dispatched. The result names the contexts
/// to switch between, or is `BatchComplete` where no task is left to run:
/// then every loaded task has exited.
pub fn exit_current_and_run_next(manager: &mut TaskManager, now: usize) -> (action: Dispatch)
    requires
        old(manager)@.is_running(),
    ensures
        final(manager)@ == old(manager)@.exit_current_and_run_next(now),
        final(manager)@ == old(manager)@.step(Event::Exit { now }),
        final(manager)@.wf(),
        match old(manager)@.mark_current_exited().find_next() {
            Some(next) => {
                &&& action == (Dispatch::Switch {
                    from: old(manager)@.current as usize,
                    to: next as usize,
                })
                &&& final(manager)@.is_running()
                &&& final(manager)@.current == next
            },
            None => {
                &&& action == Dispatch::BatchComplete
                &&& final(manager)@.is_halted()
            },
        },
        action == Dispatch::BatchComplete <==> final(manager)@.is_halted(),
{
    proof {
        use_type_invariant(&*manager);
        manager.lemma_inv();
        lemma_exit(manager@, now);
    }
    manager.mark_current_exited();
    manager.run_next_task(now)
}

/// Counts one more syscall `syscall_id` for the running task of `manager`. An
/// id outside the syscall-id space is ignored.
pub fn increase_syscall_count(manager: &mut TaskManager, syscall_id: u16)
    requires
        old(manager)@.is_running(),
        syscall_id < MAX_SYSCALL_NUM ==> old(manager)@.current_task().syscall_times[syscall_id as int]
            < u32::MAX,
    ensures
        final(manager)@ == old(manager)@.increase_syscall_count(syscall_id),
        final(manager)@ == old(manager)@.step(Event::Syscall { id: syscall_id }),
        final(manager)@.wf(),
        final(manager)@.is_running(),
{
    manager.increase_syscall_count(syscall_id)
}

/// Takes a snapshot of the current task of `manager` at clock reading `now`.
pub fn get_current_task_info(manager: &TaskManager, now: usize) -> (info: TaskInfo)
    requires
        manager@.current_task().start_time is Some,
        manager@.current_task().start_time->0 <= now,
    ensures
        info@ == manager@.get_current_task_info(now),
{
    manager.get_current_task_info(now)
}

/// Exchanges the syscall counters of block `id` with `counters`.
fn swap_counters(
    tasks: &mut Vec<TaskControlBlock>,
    id: usize,
    counters: &mut BTreeMap<u16, u32>,
)
    requires
        id < old(tasks).len(),
    ensures
        final(tasks)@ == old(tasks)@.update(
            id as int,
            TaskControlBlock { syscall_times: *old(counters), ..old(tasks)[id as int] },
        ),
        *final(counters) == old(tasks)[id as int].syscall_times,
    no_unwind
{
    core::mem::swap(&mut tasks[id].syscall_times, counters);
}

/// Sets the status of block `id` and leaves the rest of the pool as it is.
fn set_status(tasks: &mut Vec<TaskControlBlock>, id: usize, status: TaskStatus)
    requires
        id < old(tasks).len(),
    ensures
        final(tasks)@ == old(tasks)@.update(
            id as int,
            TaskControlBlock { task_status: status, ..old(tasks)[id as int] },
        ),
    no_unwind
{
    tasks[id].task_status = status;
}

/// Makes block `id` `Running`, with `now` as its start time unless it has one.
fn start_task(tasks: &mut Vec<TaskControlBlock>, id: usize, now: usize)
    requires
        id < old(tasks).len(),
    ensures
        final(tasks)@ == old(tasks)@.update(
            id as int,
            TaskControlBlock {
                task_status: TaskStatus::Running,
                start_time: if old(tasks)[id as int].start_time is Some {
                    old(tasks)[id as int].start_time
                } else {
                    Some(now)
                },
                ..old(tasks)[id as int]
            },
        ),
    no_unwind
{
    match tasks[id].start_time {
        Some(_) => {},
        None => {
            tasks[id].start_time = Some(now);
        },
    }
    tasks[id].task_status = TaskStatus::Running;
}

} // verus!
