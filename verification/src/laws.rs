//! What holds of the scheduler over whole runs.
//!
//! A run is a sequence of requests made by whichever task is running at the
//! time. The theorems here speak of the state machine of [`ManagerView`]; the
//! contracts of the task manager tie the executable code to that machine.

use vstd::prelude::*;
use vstd::arithmetic::div_mod::{
    lemma_fundamental_div_mod, lemma_fundamental_div_mod_converse, lemma_mod_pos_bound,
};
use crate::config::{MAX_APP_NUM, MAX_SYSCALL_NUM};
use crate::model::{
    lemma_dispatch, lemma_exit, lemma_find_next, lemma_probe, lemma_suspend, lemma_syscall, Event,
    ManagerView,
};
use crate::task::TaskStatus;

verus! {

impl ManagerView {
    /// The scheduler has been started and is between two requests: the
    /// current task is `Running`, or the batch is complete.
    pub open spec fn is_started(self) -> bool {
        self.wf() && (self.is_running() || self.is_halted())
    }

    /// The current task is `Running` and every other loaded task is `Ready`.
    pub open spec fn all_others_ready(self) -> bool {
        &&& self.is_running()
        &&& forall|i: int|
            0 <= i < self.num_app && i != self.current ==> (#[trigger] self.tasks[i]).status
                == TaskStatus::Ready
    }

    /// How many of the requests `events`, made one after the other from this
    /// state on, are a syscall `id` made while `task` is the running task.
    pub open spec fn syscalls_issued(self, events: Seq<Event>, task: int, id: u16) -> nat
        decreases events.len(),
    {
        if events.len() == 0 {
            0
        } else {
            let before = self.run(events.drop_last());
            let counted: nat = if before.is_running() && before.current == task && events.last()
                == (Event::Syscall { id }) {
                1
            } else {
                0
            };
            self.syscalls_issued(events.drop_last(), task, id) + counted
        }
    }
}

/// How many of the requests `events` are yields.
pub open spec fn yields(events: Seq<Event>) -> nat
    decreases events.len(),
{
    if events.len() == 0 {
        0
    } else {
        let counted: nat = if events.last() is Suspend {
            1
        } else {
            0
        };
        yields(events.drop_last()) + counted
    }
}

/// A request leaves the scheduler well formed, and a started scheduler
/// started.
pub proof fn lemma_step(s: ManagerView, event: Event)
    requires
        s.wf(),
    ensures
        s.step(event).wf(),
        s.step(event).num_app == s.num_app,
        s.is_started() ==> s.step(event).is_started(),
{
    if s.is_running() {
        match event {
            Event::Suspend { now } => {
                lemma_suspend(s, now);
            },
            Event::Exit { now } => {
                lemma_exit(s, now);
            },
            Event::Syscall { id } => {
                lemma_syscall(s, id);
            },
        }
    }
}

/// A run leaves the scheduler well formed, and a started scheduler started.
pub proof fn lemma_run(s: ManagerView, events: Seq<Event>)
    requires
        s.wf(),
    ensures
        s.run(events).wf(),
        s.run(events).num_app == s.num_app,
        s.is_started() ==> s.run(events).is_started(),
    decreases events.len(),
{
    if events.len() > 0 {
        lemma_run(s, events.drop_last());
        lemma_step(s.run(events.drop_last()), events.last());
    }
}

/// The first dispatch starts the scheduler: task 0 is `Running`.
pub proof fn lemma_run_first_task(s: ManagerView, now: usize)
    requires
        s.wf(),
        s.is_fresh(),
    ensures
        s.run_first_task(now).is_started(),
        s.run_first_task(now).is_running(),
        s.run_first_task(now).current == 0,
{
    assert(s.tasks[0].status == TaskStatus::Ready);
    lemma_dispatch(s, 0, now);
}

/// Between two requests exactly one task is `Running`, unless the batch is
/// complete: then, and only then, none is.
///
/// This holds from the first dispatch on, whatever the tasks ask for
/// afterwards.
pub proof fn lemma_one_task_runs_until_batch_completes(
    s: ManagerView,
    now: usize,
    events: Seq<Event>,
)
    requires
        s.wf(),
        s.is_fresh(),
    ensures
        ({
            let t = s.run_first_task(now).run(events);
            &&& t.wf()
            &&& t.exactly_one_running() || t.none_running()
            &&& t.none_running() <==> t.is_halted()
            &&& t.exactly_one_running() <==> t.is_running()
        }),
{
    lemma_run_first_task(s, now);
    lemma_run(s.run_first_task(now), events);
    lemma_running_task_is_unique(s.run_first_task(now).run(events));
}

/// In a well-formed state the tasks that are `Running` are the current one or
/// none; in a started one, none is `Running` exactly where the batch is
/// complete.
pub proof fn lemma_running_task_is_unique(t: ManagerView)
    requires
        t.wf(),
    ensures
        t.is_running() <==> t.exactly_one_running(),
        !t.is_running() <==> t.none_running(),
        t.is_started() ==> (t.none_running() <==> t.is_halted()),
{
    if t.is_running() {
        assert(t.tasks[t.current].status == TaskStatus::Running);
        assert(t.exactly_one_running());
        assert(!t.none_running());
        assert(!t.is_halted());
    } else {
        assert forall|i: int| 0 <= i < t.tasks.len() implies (#[trigger] t.tasks[i]).status
            != TaskStatus::Running by {}
        assert(t.none_running());
        if t.exactly_one_running() {
            let i = choose|i: int|
                0 <= i < t.tasks.len() && (#[trigger] t.tasks[i]).status == TaskStatus::Running;
            assert(false);
        }
    }
}

/// Slot `c` of `n`, moved on by `k` places round the `n` slots and then by one
/// more, is slot `c` moved on by `k + 1` places.
proof fn lemma_one_place_on(c: int, k: int, n: int)
    requires
        0 <= c < n,
        0 <= k,
    ensures
        0 <= (c + k) % n < n,
        (c + k + 1) % n == if (c + k) % n + 1 < n {
            (c + k) % n + 1
        } else {
            0
        },
{
    let x = c + k;
    let q = x / n;
    let r = x % n;
    lemma_fundamental_div_mod(x, n);
    lemma_mod_pos_bound(x, n);
    assert(q * n == n * q) by (nonlinear_arith);
    if r + 1 < n {
        lemma_fundamental_div_mod_converse(x + 1, n, q, r + 1);
    } else {
        assert((q + 1) * n == q * n + n) by (nonlinear_arith);
        lemma_fundamental_div_mod_converse(x + 1, n, q + 1, 0);
    }
}

/// Going round `n` slots comes back to the start after `n` places and not
/// before.
proof fn lemma_comes_round(c: int, k: int, n: int)
    requires
        0 <= c < n,
    ensures
        k == 0 || k == n ==> (c + k) % n == c,
        0 < k < n ==> (c + k) % n != c,
{
    if k == 0 {
        lemma_fundamental_div_mod_converse(c, n, 0, c);
    } else if k == n {
        lemma_fundamental_div_mod_converse(c + k, n, 1, c);
    } else if 0 < k < n {
        if c + k < n {
            lemma_fundamental_div_mod_converse(c + k, n, 0, c + k);
        } else {
            lemma_fundamental_div_mod_converse(c + k, n, 1, c + k - n);
        }
    }
}

/// Round robin: while no task exits, the processor goes round the loaded
/// tasks in slot order. After `k` yields the current slot is `k` places on,
/// counted round the `num_app` loaded slots; so a task gets the processor back
/// after `num_app` yields and not before.
pub proof fn lemma_round_robin(s: ManagerView, events: Seq<Event>)
    requires
        s.wf(),
        s.all_others_ready(),
        forall|i: int| 0 <= i < events.len() ==> !((#[trigger] events[i]) is Exit),
    ensures
        s.run(events).wf(),
        s.run(events).all_others_ready(),
        s.run(events).current == (s.current + yields(events)) % s.num_app,
        0 < yields(events) < s.num_app ==> s.run(events).current != s.current,
        yields(events) == s.num_app ==> s.run(events).current == s.current,
    decreases events.len(),
{
    let n = s.num_app;
    lemma_comes_round(s.current, yields(events) as int, n);
    if events.len() > 0 {
        let before = s.run(events.drop_last());
        lemma_round_robin(s, events.drop_last());
        lemma_run(s, events.drop_last());
        match events.last() {
            Event::Suspend { now } => {
                let m = before.mark_current_suspended();
                lemma_suspend(before, now);
                // Every loaded task is `Ready` now, so the search stops at its first step.
                lemma_probe(m, 0);
                assert(m.tasks[m.probe(0)].status == TaskStatus::Ready);
                assert(m.first_ready_at(0));
                lemma_find_next(m);
                assert(s.run(events) == m.dispatch(m.probe(0), now));
                assert(s.run(events).all_others_ready());
                lemma_one_place_on(s.current, yields(events.drop_last()) as int, n);
            },
            Event::Exit { now } => {
                assert(events[events.len() - 1] is Exit);
            },
            Event::Syscall { id } => {
                lemma_syscall(before, id);
                assert(s.run(events).all_others_ready());
            },
        }
    }
}

/// `Exited` is for good: a task that has exited stays `Exited` through every
/// run, is never what the search for the next task finds, and is never the
/// running task again.
pub proof fn lemma_exited_task_is_never_selected(s: ManagerView, id: int, events: Seq<Event>)
    requires
        s.wf(),
        0 <= id < s.tasks.len(),
        s.tasks[id].status == TaskStatus::Exited,
    ensures
        s.run(events).tasks[id].status == TaskStatus::Exited,
        s.run(events).find_next() != Some(id),
        s.run(events).is_running() ==> {
            &&& s.run(events).current != id
            &&& s.run(events).mark_current_suspended().find_next() != Some(id)
            &&& s.run(events).mark_current_exited().find_next() != Some(id)
        },
    decreases events.len(),
{
    lemma_run(s, events);
    if events.len() > 0 {
        let before = s.run(events.drop_last());
        lemma_exited_task_is_never_selected(s, id, events.drop_last());
        lemma_run(s, events.drop_last());
        if before.is_running() {
            match events.last() {
                Event::Suspend { now } => {
                    lemma_suspend(before, now);
                    lemma_find_next(before.mark_current_suspended());
                },
                Event::Exit { now } => {
                    lemma_exit(before, now);
                    lemma_find_next(before.mark_current_exited());
                },
                Event::Syscall { id } => {},
            }
        }
    }
    let t = s.run(events);
    assert(t.tasks[id].status == TaskStatus::Exited);
    lemma_find_next_skips_unready(t, id);
    if t.is_running() {
        lemma_find_next_skips_unready(t.mark_current_suspended(), id);
        lemma_find_next_skips_unready(t.mark_current_exited(), id);
    }
}

/// The search for the next task never finds one that is not `Ready`.
proof fn lemma_find_next_skips_unready(s: ManagerView, id: int)
    requires
        s.tasks[id].status != TaskStatus::Ready,
    ensures
        s.find_next() != Some(id),
{
    if s.find_next() == Some(id) {
        let k = choose|k: int| s.first_ready_at(k);
        assert(s.tasks[s.probe(k)].status == TaskStatus::Ready);
    }
}

/// A run adds to each syscall counter of each task the number of syscalls of
/// that id that the task made while it was running, and nothing else.
pub proof fn lemma_syscall_counts_over_run(
    s: ManagerView,
    events: Seq<Event>,
    task: int,
    id: u16,
)
    requires
        s.wf(),
        0 <= task < MAX_APP_NUM,
        id < MAX_SYSCALL_NUM,
    ensures
        s.run(events).tasks[task].syscall_times[id as int] == s.tasks[task].syscall_times[id as int]
            + s.syscalls_issued(events, task, id),
    decreases events.len(),
{
    if events.len() > 0 {
        let before = s.run(events.drop_last());
        lemma_syscall_counts_over_run(s, events.drop_last(), task, id);
        lemma_run(s, events.drop_last());
        lemma_step_counts(before, events.last(), task, id);
    }
}

/// One request changes a syscall counter only where it is a syscall of that
/// id by the running task, and then by one.
proof fn lemma_step_counts(s: ManagerView, event: Event, task: int, id: u16)
    requires
        s.wf(),
        0 <= task < MAX_APP_NUM,
        id < MAX_SYSCALL_NUM,
    ensures
        s.step(event).tasks[task].syscall_times[id as int] == s.tasks[task].syscall_times[id as int]
            + if s.is_running() && s.current == task && event == (Event::Syscall { id }) {
            1nat
        } else {
            0nat
        },
{
    assert(s.tasks[task].wf());
    if s.is_running() {
        match event {
            Event::Suspend { now } => {
                lemma_suspend(s, now);
            },
            Event::Exit { now } => {
                lemma_exit(s, now);
                lemma_find_next(s.mark_current_exited());
            },
            Event::Syscall { id: other } => {
                assert(s.tasks[s.current].wf());
            },
        }
    }
}

/// Each syscall counter of each task equals the number of syscalls of that id
/// that the task has made since the scheduler was started.
pub proof fn lemma_syscall_counts(
    s: ManagerView,
    now: usize,
    events: Seq<Event>,
    task: int,
    id: u16,
)
    requires
        s.wf(),
        s.is_fresh(),
        0 <= task < MAX_APP_NUM,
        id < MAX_SYSCALL_NUM,
    ensures
        s.run_first_task(now).run(events).tasks[task].syscall_times[id as int]
            == s.run_first_task(now).syscalls_issued(events, task, id),
{
    lemma_run_first_task(s, now);
    lemma_syscall_counts_over_run(s.run_first_task(now), events, task, id);
    assert(s.tasks[task].wf());
    if task < s.num_app {
        assert(s.tasks[task].start_time is None);
    } else {
        assert(s.tasks[task].status == TaskStatus::UnInit);
    }
}

/// One request moves a task one step along its life or leaves it where it
/// is: a `Ready` task may become `Running`, a `Running` task may become
/// `Ready` or `Exited`, and nothing else happens. No request touches a
/// context.
pub proof fn lemma_task_life_cycle(s: ManagerView, event: Event, task: int)
    requires
        s.wf(),
        0 <= task < MAX_APP_NUM,
    ensures
        ({
            let before = s.tasks[task].status;
            let after = s.step(event).tasks[task].status;
            ||| after == before
            ||| before == TaskStatus::Ready && after == TaskStatus::Running
            ||| before == TaskStatus::Running && after == TaskStatus::Ready
            ||| before == TaskStatus::Running && after == TaskStatus::Exited
        }),
        s.step(event).tasks[task].context == s.tasks[task].context,
{
    if s.is_running() {
        match event {
            Event::Suspend { now } => {
                lemma_suspend(s, now);
                lemma_find_next(s.mark_current_suspended());
            },
            Event::Exit { now } => {
                lemma_exit(s, now);
                lemma_find_next(s.mark_current_exited());
            },
            Event::Syscall { id } => {},
        }
    }
}

/// A start time, once set, is never set again.
pub proof fn lemma_start_time_is_set_once(s: ManagerView, events: Seq<Event>, task: int)
    requires
        s.wf(),
        0 <= task < MAX_APP_NUM,
        s.tasks[task].start_time is Some,
    ensures
        s.run(events).tasks[task].start_time == s.tasks[task].start_time,
    decreases events.len(),
{
    if events.len() > 0 {
        let before = s.run(events.drop_last());
        lemma_start_time_is_set_once(s, events.drop_last(), task);
        lemma_run(s, events.drop_last());
        if before.is_running() {
            match events.last() {
                Event::Suspend { now } => {
                    lemma_suspend(before, now);
                },
                Event::Exit { now } => {
                    lemma_exit(before, now);
                    lemma_find_next(before.mark_current_exited());
                },
                Event::Syscall { id } => {},
            }
        }
    }
}

/// The elapsed time of a task is never negative and never goes down: of two
/// snapshots, the later one, taken at the same or a later clock reading after
/// any run in between, shows at least as many milliseconds.
pub proof fn lemma_elapsed_time_never_decreases(
    s: ManagerView,
    events: Seq<Event>,
    earlier: usize,
    later: usize,
)
    requires
        s.wf(),
        s.current_task().start_time is Some,
        s.current_task().start_time->0 <= earlier <= later,
    ensures
        0 <= s.get_current_task_info(earlier).time,
        s.get_current_task_info(earlier).time <= s.run(events).tasks[s.current].elapsed_ms(later),
        s.run(events).current == s.current ==> s.get_current_task_info(earlier).time
            <= s.run(events).get_current_task_info(later).time,
{
    lemma_start_time_is_set_once(s, events, s.current);
}

} // verus!
