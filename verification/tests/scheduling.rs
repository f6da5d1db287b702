use task_manager::{
    exit_current_and_run_next, run_first_task, suspend_current_and_run_next, Dispatch, TaskContext,
    TaskManager, TaskStatus, MAX_APP_NUM,
};

fn contexts(n: usize) -> Vec<TaskContext> {
    let mut v = Vec::new();
    for i in 0..n {
        v.push(TaskContext::goto_restore(0x8020_0000, 0x9000_0000 + 0x1000 * i));
    }
    v
}

fn started(n: usize) -> TaskManager {
    let mut manager = TaskManager::new(contexts(n)).unwrap();
    assert_eq!(run_first_task(&mut manager, 1_000), 0);
    manager
}

fn running_tasks(manager: &TaskManager) -> usize {
    let mut count = 0;
    for id in 0..MAX_APP_NUM {
        if manager.task_status(id) == Some(TaskStatus::Running) {
            count += 1;
        }
    }
    count
}

#[test]
fn zero_context_is_blank() {
    let cx = TaskContext::zero_init();
    assert_eq!(cx.ra, 0);
    assert_eq!(cx.sp, 0);
    assert_eq!(cx.s, [0usize; 12]);
}

#[test]
fn entry_context_holds_resume_address_and_stack() {
    let cx = TaskContext::goto_restore(0x8020_1234, 0x8030_0000);
    assert_eq!(cx.ra, 0x8020_1234);
    assert_eq!(cx.sp, 0x8030_0000);
    assert_eq!(cx.s, [0usize; 12]);
}

#[test]
fn new_rejects_empty_batch() {
    assert!(TaskManager::new(Vec::new()).is_none());
}

#[test]
fn new_rejects_more_tasks_than_slots() {
    assert!(TaskManager::new(contexts(MAX_APP_NUM + 1)).is_none());
}

#[test]
fn new_accepts_full_pool() {
    let manager = TaskManager::new(contexts(MAX_APP_NUM)).unwrap();
    assert_eq!(manager.num_app(), MAX_APP_NUM);
    for id in 0..MAX_APP_NUM {
        assert_eq!(manager.task_status(id), Some(TaskStatus::Ready));
    }
}

#[test]
fn new_fills_loaded_slots_and_leaves_the_rest_uninit() {
    let cxs = contexts(3);
    let manager = TaskManager::new(cxs.clone()).unwrap();
    assert_eq!(manager.num_app(), 3);
    assert_eq!(manager.current_task(), 0);
    assert!(manager.is_fresh());
    for id in 0..3 {
        assert_eq!(manager.task_status(id), Some(TaskStatus::Ready));
        assert_eq!(manager.task_cx(id), Some(cxs[id]));
    }
    for id in 3..MAX_APP_NUM {
        assert_eq!(manager.task_status(id), Some(TaskStatus::UnInit));
        assert_eq!(manager.task_cx(id), Some(TaskContext::zero_init()));
    }
    assert_eq!(manager.current_start_time(), None);
    assert_eq!(running_tasks(&manager), 0);
}

#[test]
fn slots_beyond_the_pool_do_not_exist() {
    let manager = TaskManager::new(contexts(2)).unwrap();
    assert_eq!(manager.task_status(MAX_APP_NUM), None);
    assert_eq!(manager.task_cx(MAX_APP_NUM), None);
    assert_eq!(manager.task_status(usize::MAX), None);
}

#[test]
fn run_first_task_dispatches_slot_zero() {
    let mut manager = TaskManager::new(contexts(3)).unwrap();
    let first = manager.run_first_task(42);
    assert_eq!(first, 0);
    assert_eq!(manager.current_task(), 0);
    assert_eq!(manager.current_status(), TaskStatus::Running);
    assert_eq!(manager.current_start_time(), Some(42));
    assert_eq!(manager.task_status(1), Some(TaskStatus::Ready));
    assert_eq!(manager.task_status(2), Some(TaskStatus::Ready));
    assert!(!manager.is_fresh());
    assert_eq!(running_tasks(&manager), 1);
}

#[test]
fn three_tasks_suspend_suspend_exit_comes_back_to_task_zero() {
    let mut manager = started(3);
    assert_eq!(
        suspend_current_and_run_next(&mut manager, 2_000),
        Dispatch::Switch { from: 0, to: 1 }
    );
    assert_eq!(
        suspend_current_and_run_next(&mut manager, 3_000),
        Dispatch::Switch { from: 1, to: 2 }
    );
    assert_eq!(
        exit_current_and_run_next(&mut manager, 4_000),
        Dispatch::Switch { from: 2, to: 0 }
    );
    assert_eq!(manager.current_task(), 0);
    assert_eq!(manager.task_status(0), Some(TaskStatus::Running));
    assert_eq!(manager.task_status(1), Some(TaskStatus::Ready));
    assert_eq!(manager.task_status(2), Some(TaskStatus::Exited));
}

#[test]
fn exited_task_is_skipped_ever_after() {
    let mut manager = started(3);
    suspend_current_and_run_next(&mut manager, 2_000);
    suspend_current_and_run_next(&mut manager, 3_000);
    exit_current_and_run_next(&mut manager, 4_000);
    let mut expected_from = 0;
    for round in 0..10 {
        let expected_to = 1 - expected_from;
        assert_eq!(
            suspend_current_and_run_next(&mut manager, 5_000 + round),
            Dispatch::Switch { from: expected_from, to: expected_to }
        );
        assert_eq!(manager.task_status(2), Some(TaskStatus::Exited));
        assert_ne!(manager.find_next_task(), Some(2));
        expected_from = expected_to;
    }
}

#[test]
fn round_robin_comes_round_after_as_many_yields_as_tasks() {
    let mut manager = started(4);
    let mut visited = Vec::new();
    for step in 0..4 {
        match suspend_current_and_run_next(&mut manager, 2_000 + step) {
            Dispatch::Switch { to, .. } => visited.push(to),
            Dispatch::BatchComplete => panic!("a yielding task is always there to run"),
        }
    }
    assert_eq!(visited, vec![1, 2, 3, 0]);
}

#[test]
fn round_robin_from_the_middle_of_the_pool() {
    let mut manager = started(5);
    suspend_current_and_run_next(&mut manager, 1);
    suspend_current_and_run_next(&mut manager, 2);
    assert_eq!(manager.current_task(), 2);
    for step in 1..5 {
        suspend_current_and_run_next(&mut manager, 10 + step);
        assert_ne!(manager.current_task(), 2);
    }
    suspend_current_and_run_next(&mut manager, 20);
    assert_eq!(manager.current_task(), 2);
}

#[test]
fn single_task_yields_to_itself() {
    let mut manager = started(1);
    assert_eq!(
        suspend_current_and_run_next(&mut manager, 2_000),
        Dispatch::Switch { from: 0, to: 0 }
    );
    assert_eq!(manager.current_status(), TaskStatus::Running);
    assert_eq!(manager.current_start_time(), Some(1_000));
}

#[test]
fn batch_completes_when_every_task_has_exited() {
    let mut manager = started(2);
    assert_eq!(
        exit_current_and_run_next(&mut manager, 2_000),
        Dispatch::Switch { from: 0, to: 1 }
    );
    assert_eq!(exit_current_and_run_next(&mut manager, 3_000), Dispatch::BatchComplete);
    assert_eq!(manager.task_status(0), Some(TaskStatus::Exited));
    assert_eq!(manager.task_status(1), Some(TaskStatus::Exited));
    assert_eq!(manager.current_task(), 1);
    assert_eq!(manager.find_next_task(), None);
    assert_eq!(running_tasks(&manager), 0);
}

#[test]
fn single_task_exit_completes_the_batch() {
    let mut manager = started(1);
    assert_eq!(exit_current_and_run_next(&mut manager, 2_000), Dispatch::BatchComplete);
    assert_eq!(manager.current_status(), TaskStatus::Exited);
}

#[test]
fn exactly_one_task_runs_between_requests() {
    let mut manager = started(3);
    assert_eq!(running_tasks(&manager), 1);
    suspend_current_and_run_next(&mut manager, 1);
    assert_eq!(running_tasks(&manager), 1);
    exit_current_and_run_next(&mut manager, 2);
    assert_eq!(running_tasks(&manager), 1);
    suspend_current_and_run_next(&mut manager, 3);
    assert_eq!(running_tasks(&manager), 1);
    exit_current_and_run_next(&mut manager, 4);
    assert_eq!(running_tasks(&manager), 1);
    assert_eq!(exit_current_and_run_next(&mut manager, 5), Dispatch::BatchComplete);
    assert_eq!(running_tasks(&manager), 0);
}

#[test]
fn find_next_task_takes_the_nearest_ready_task_behind_the_current_one() {
    let mut manager = started(4);
    assert_eq!(manager.find_next_task(), Some(1));
    suspend_current_and_run_next(&mut manager, 1);
    assert_eq!(manager.find_next_task(), Some(2));
    exit_current_and_run_next(&mut manager, 2);
    assert_eq!(manager.current_task(), 2);
    assert_eq!(manager.find_next_task(), Some(3));
}

#[test]
fn find_next_task_wraps_round_the_loaded_slots() {
    let mut manager = started(3);
    suspend_current_and_run_next(&mut manager, 1);
    suspend_current_and_run_next(&mut manager, 2);
    assert_eq!(manager.current_task(), 2);
    assert_eq!(manager.find_next_task(), Some(0));
    exit_current_and_run_next(&mut manager, 3);
    assert_eq!(manager.current_task(), 0);
    exit_current_and_run_next(&mut manager, 4);
    assert_eq!(manager.current_task(), 1);
    assert_eq!(manager.find_next_task(), None);
}

#[test]
fn find_next_task_never_looks_at_empty_slots() {
    let manager = started(2);
    assert_eq!(manager.task_status(2), Some(TaskStatus::UnInit));
    assert_eq!(manager.find_next_task(), Some(1));
}

#[test]
fn find_next_task_does_not_count_the_running_task() {
    let manager = started(1);
    assert_eq!(manager.find_next_task(), None);
}

#[test]
fn mark_current_suspended_makes_the_task_ready() {
    let mut manager = started(2);
    manager.mark_current_suspended();
    assert_eq!(manager.current_task(), 0);
    assert_eq!(manager.task_status(0), Some(TaskStatus::Ready));
    assert_eq!(manager.task_status(1), Some(TaskStatus::Ready));
    assert_eq!(running_tasks(&manager), 0);
}

#[test]
fn mark_current_exited_makes_the_task_exited() {
    let mut manager = started(2);
    manager.mark_current_exited();
    assert_eq!(manager.current_task(), 0);
    assert_eq!(manager.task_status(0), Some(TaskStatus::Exited));
    assert_eq!(manager.task_status(1), Some(TaskStatus::Ready));
}

#[test]
fn run_next_task_dispatches_and_stamps_the_start_time() {
    let mut manager = started(2);
    manager.mark_current_suspended();
    assert_eq!(manager.run_next_task(7_000), Dispatch::Switch { from: 0, to: 1 });
    assert_eq!(manager.current_task(), 1);
    assert_eq!(manager.current_status(), TaskStatus::Running);
    assert_eq!(manager.current_start_time(), Some(7_000));
}

#[test]
fn run_next_task_without_a_ready_task_changes_nothing() {
    let mut manager = started(1);
    manager.mark_current_exited();
    assert_eq!(manager.run_next_task(7_000), Dispatch::BatchComplete);
    assert_eq!(manager.current_task(), 0);
    assert_eq!(manager.current_status(), TaskStatus::Exited);
    assert_eq!(manager.current_start_time(), Some(1_000));
}

#[test]
fn start_time_is_stamped_at_the_first_dispatch_only() {
    let mut manager = started(2);
    suspend_current_and_run_next(&mut manager, 2_000);
    assert_eq!(manager.current_start_time(), Some(2_000));
    suspend_current_and_run_next(&mut manager, 3_000);
    assert_eq!(manager.current_task(), 0);
    assert_eq!(manager.current_start_time(), Some(1_000));
    suspend_current_and_run_next(&mut manager, 4_000);
    assert_eq!(manager.current_task(), 1);
    assert_eq!(manager.current_start_time(), Some(2_000));
}

#[test]
fn a_start_time_of_zero_is_a_start_time() {
    let mut manager = TaskManager::new(contexts(2)).unwrap();
    run_first_task(&mut manager, 0);
    assert_eq!(manager.current_start_time(), Some(0));
    suspend_current_and_run_next(&mut manager, 10);
    suspend_current_and_run_next(&mut manager, 20);
    assert_eq!(manager.current_task(), 0);
    assert_eq!(manager.current_start_time(), Some(0));
}

#[test]
fn scheduling_leaves_the_contexts_alone() {
    let cxs = contexts(3);
    let mut manager = TaskManager::new(cxs.clone()).unwrap();
    run_first_task(&mut manager, 1);
    suspend_current_and_run_next(&mut manager, 2);
    exit_current_and_run_next(&mut manager, 3);
    for id in 0..3 {
        assert_eq!(manager.task_cx(id), Some(cxs[id]));
    }
}
