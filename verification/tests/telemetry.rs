use task_manager::{
    exit_current_and_run_next, get_current_task_info, increase_syscall_count, run_first_task,
    suspend_current_and_run_next, Dispatch, TaskContext, TaskManager, TaskStatus, MAX_SYSCALL_NUM,
};

fn batch(n: usize, start: usize) -> TaskManager {
    let mut cxs = Vec::new();
    for i in 0..n {
        cxs.push(TaskContext::goto_restore(0x8020_0000, 0x9000_0000 + 0x1000 * i));
    }
    let mut manager = TaskManager::new(cxs).unwrap();
    run_first_task(&mut manager, start);
    manager
}

#[test]
fn three_calls_of_one_syscall_are_counted_three_times() {
    let mut manager = batch(1, 0);
    increase_syscall_count(&mut manager, 5);
    increase_syscall_count(&mut manager, 5);
    increase_syscall_count(&mut manager, 5);
    let info = get_current_task_info(&manager, 0);
    assert_eq!(info.syscall_times.len(), MAX_SYSCALL_NUM);
    for id in 0..MAX_SYSCALL_NUM {
        let expected = if id == 5 { 3 } else { 0 };
        assert_eq!(info.syscall_times[id], expected);
    }
}

#[test]
fn fresh_task_has_made_no_syscall() {
    let manager = batch(2, 10);
    let info = get_current_task_info(&manager, 10);
    assert_eq!(info.syscall_times, [0u32; MAX_SYSCALL_NUM]);
    assert_eq!(info.time, 0);
    assert_eq!(info.status, TaskStatus::Running);
}

#[test]
fn counters_belong_to_the_task_that_made_the_call() {
    let mut manager = batch(2, 0);
    increase_syscall_count(&mut manager, 1);
    increase_syscall_count(&mut manager, 1);
    increase_syscall_count(&mut manager, 64);
    suspend_current_and_run_next(&mut manager, 100);
    increase_syscall_count(&mut manager, 1);
    increase_syscall_count(&mut manager, 2);
    increase_syscall_count(&mut manager, 2);
    increase_syscall_count(&mut manager, 2);
    let second = get_current_task_info(&manager, 200);
    assert_eq!(second.syscall_times[1], 1);
    assert_eq!(second.syscall_times[2], 3);
    assert_eq!(second.syscall_times[64], 0);
    suspend_current_and_run_next(&mut manager, 300);
    let first = get_current_task_info(&manager, 400);
    assert_eq!(first.syscall_times[1], 2);
    assert_eq!(first.syscall_times[2], 0);
    assert_eq!(first.syscall_times[64], 1);
    let total: u32 = first.syscall_times.iter().sum();
    assert_eq!(total, 3);
}

#[test]
fn syscall_count_reads_one_counter() {
    let mut manager = batch(1, 0);
    assert_eq!(manager.syscall_count(93), 0);
    manager.increase_syscall_count(93);
    assert_eq!(manager.syscall_count(93), 1);
    manager.increase_syscall_count(93);
    assert_eq!(manager.syscall_count(93), 2);
    assert_eq!(manager.syscall_count(94), 0);
}

#[test]
fn lowest_and_highest_syscall_id_are_counted() {
    let mut manager = batch(1, 0);
    increase_syscall_count(&mut manager, 0);
    increase_syscall_count(&mut manager, (MAX_SYSCALL_NUM - 1) as u16);
    let info = get_current_task_info(&manager, 0);
    assert_eq!(info.syscall_times[0], 1);
    assert_eq!(info.syscall_times[MAX_SYSCALL_NUM - 1], 1);
    let total: u32 = info.syscall_times.iter().sum();
    assert_eq!(total, 2);
}

#[test]
fn syscall_id_outside_the_id_space_is_ignored() {
    let mut manager = batch(1, 0);
    increase_syscall_count(&mut manager, 7);
    increase_syscall_count(&mut manager, MAX_SYSCALL_NUM as u16);
    increase_syscall_count(&mut manager, 501);
    increase_syscall_count(&mut manager, u16::MAX);
    assert_eq!(manager.syscall_count(MAX_SYSCALL_NUM as u16), 0);
    assert_eq!(manager.syscall_count(u16::MAX), 0);
    let info = get_current_task_info(&manager, 0);
    for id in 0..MAX_SYSCALL_NUM {
        let expected = if id == 7 { 1 } else { 0 };
        assert_eq!(info.syscall_times[id], expected);
    }
}

#[test]
fn elapsed_time_is_whole_milliseconds_since_the_first_dispatch() {
    let manager = batch(1, 5_000);
    assert_eq!(get_current_task_info(&manager, 5_000).time, 0);
    assert_eq!(get_current_task_info(&manager, 5_999).time, 0);
    assert_eq!(get_current_task_info(&manager, 6_000).time, 1);
    assert_eq!(get_current_task_info(&manager, 12_999).time, 7);
    assert_eq!(get_current_task_info(&manager, 1_005_000).time, 1_000);
}

#[test]
fn elapsed_time_never_goes_down() {
    let mut manager = batch(2, 250);
    let mut last = 0;
    for now in [250usize, 251, 1_249, 1_250, 1_251, 40_000, 40_000, 99_999] {
        let info = get_current_task_info(&manager, now);
        assert!(info.time >= last);
        last = info.time;
        increase_syscall_count(&mut manager, 3);
    }
    assert_eq!(last, 99);
    suspend_current_and_run_next(&mut manager, 100_000);
    suspend_current_and_run_next(&mut manager, 200_000);
    assert_eq!(manager.current_task(), 0);
    let later = get_current_task_info(&manager, 200_250);
    assert_eq!(later.time, 200);
    assert!(later.time >= last);
}

#[test]
fn elapsed_time_counts_from_the_first_dispatch_not_the_last() {
    let mut manager = batch(2, 1_000);
    suspend_current_and_run_next(&mut manager, 2_000);
    assert_eq!(get_current_task_info(&manager, 5_000).time, 3);
    suspend_current_and_run_next(&mut manager, 6_000);
    assert_eq!(manager.current_task(), 0);
    assert_eq!(get_current_task_info(&manager, 6_000).time, 5);
}

#[test]
fn snapshot_copies_the_status_of_the_current_task() {
    let mut manager = batch(1, 0);
    assert_eq!(get_current_task_info(&manager, 1).status, TaskStatus::Running);
    manager.mark_current_suspended();
    assert_eq!(manager.get_current_task_info(1).status, TaskStatus::Ready);
    assert_eq!(manager.run_next_task(2), Dispatch::Switch { from: 0, to: 0 });
    assert_eq!(exit_current_and_run_next(&mut manager, 3), Dispatch::BatchComplete);
    let info = get_current_task_info(&manager, 4_000);
    assert_eq!(info.status, TaskStatus::Exited);
    assert_eq!(info.time, 4);
}

#[test]
fn counters_survive_suspension_and_exit_of_other_tasks() {
    let mut manager = batch(3, 0);
    increase_syscall_count(&mut manager, 10);
    suspend_current_and_run_next(&mut manager, 1);
    increase_syscall_count(&mut manager, 11);
    exit_current_and_run_next(&mut manager, 2);
    assert_eq!(manager.current_task(), 2);
    increase_syscall_count(&mut manager, 12);
    suspend_current_and_run_next(&mut manager, 3);
    assert_eq!(manager.current_task(), 0);
    increase_syscall_count(&mut manager, 10);
    let info = get_current_task_info(&manager, 4);
    assert_eq!(info.syscall_times[10], 2);
    assert_eq!(info.syscall_times[11], 0);
    assert_eq!(info.syscall_times[12], 0);
}
