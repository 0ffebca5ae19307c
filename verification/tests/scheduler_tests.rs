use anything_engine::scheduler::{
    cascade_statuses, check_transition, next_backoff, next_pending_index, poll_cycle,
    prefer_testing, Admission, BACKOFF_CAP_MS, BACKOFF_FLOOR_MS,
};
use anything_engine::types::{
    Stage, Task, TaskConfig, TaskStatus, UpdateTaskInput,
};

fn task(id: &str, status: TaskStatus, order: i32) -> Task {
    Task {
        task_id: id.to_string(),
        account_id: "acct".to_string(),
        flow_id: "flow".to_string(),
        flow_version_id: "fv".to_string(),
        flow_version_name: None,
        trigger_id: "trig".to_string(),
        trigger_session_id: "ts".to_string(),
        flow_session_id: "fs".to_string(),
        node_id: id.to_string(),
        plugin_id: None,
        stage: Stage::Testing,
        task_status: status,
        is_trigger: false,
        processing_order: order,
        config: TaskConfig { variables: None, inputs: None },
        result: None,
    }
}

#[test]
fn backoff_strictly_doubles_until_cap() {
    let mut delay = BACKOFF_FLOOR_MS;
    let mut seen = vec![delay];
    for _ in 0..10 {
        let next = next_backoff(delay, false);
        if delay < BACKOFF_CAP_MS {
            assert!(next > delay);
        }
        delay = next;
        seen.push(delay);
    }
    assert_eq!(
        seen,
        vec![200, 400, 800, 1600, 3200, 6400, 12800, 25600, 51200, 60000, 60000]
    );
}

#[test]
fn backoff_resets_to_floor_when_work_is_found() {
    assert_eq!(next_backoff(51200, true), BACKOFF_FLOOR_MS);
    assert_eq!(next_backoff(BACKOFF_CAP_MS, true), BACKOFF_FLOOR_MS);
    assert_eq!(next_backoff(BACKOFF_FLOOR_MS, true), BACKOFF_FLOOR_MS);
}

#[test]
fn testing_stage_is_preferred() {
    let testing = task("t", TaskStatus::Pending, 1);
    let production = task("p", TaskStatus::Pending, 1);
    let chosen = prefer_testing(Some(testing), Some(production)).unwrap();
    assert_eq!(chosen.task_id, "t");
    let only_production = prefer_testing(None, Some(task("p", TaskStatus::Pending, 1))).unwrap();
    assert_eq!(only_production.task_id, "p");
    assert!(prefer_testing(None, None).is_none());
}

#[test]
fn transition_table_matches_lifecycle() {
    assert!(check_transition(TaskStatus::Pending, TaskStatus::Processing));
    assert!(check_transition(TaskStatus::Pending, TaskStatus::Cancelled));
    assert!(check_transition(TaskStatus::Processing, TaskStatus::Completed));
    assert!(check_transition(TaskStatus::Processing, TaskStatus::Error));
    assert!(!check_transition(TaskStatus::Pending, TaskStatus::Completed));
    assert!(!check_transition(TaskStatus::Processing, TaskStatus::Cancelled));
    for terminal in [TaskStatus::Completed, TaskStatus::Error, TaskStatus::Cancelled] {
        for to in [
            TaskStatus::Pending,
            TaskStatus::Processing,
            TaskStatus::Completed,
            TaskStatus::Error,
            TaskStatus::Cancelled,
        ] {
            assert!(!check_transition(terminal, to));
        }
    }
}

#[test]
fn failure_cascade_settles_the_flow() {
    let statuses = vec![TaskStatus::Completed, TaskStatus::Processing, TaskStatus::Pending];
    let after = cascade_statuses(&statuses, 1);
    assert_eq!(after, vec![TaskStatus::Completed, TaskStatus::Error, TaskStatus::Cancelled]);
}

#[test]
fn cascade_spares_only_completed_siblings() {
    let statuses = vec![
        TaskStatus::Pending,
        TaskStatus::Completed,
        TaskStatus::Processing,
        TaskStatus::Pending,
        TaskStatus::Pending,
    ];
    let after = cascade_statuses(&statuses, 2);
    assert_eq!(
        after,
        vec![
            TaskStatus::Cancelled,
            TaskStatus::Completed,
            TaskStatus::Error,
            TaskStatus::Cancelled,
            TaskStatus::Cancelled,
        ]
    );
}

#[test]
fn next_pending_skips_settled_tasks() {
    let tasks = vec![
        task("a", TaskStatus::Completed, 1),
        task("b", TaskStatus::Cancelled, 2),
        task("c", TaskStatus::Pending, 3),
        task("d", TaskStatus::Pending, 4),
    ];
    assert_eq!(next_pending_index(&tasks), Some(2));
    let settled = vec![task("a", TaskStatus::Completed, 1), task("b", TaskStatus::Error, 2)];
    assert_eq!(next_pending_index(&settled), None);
}

#[test]
fn admission_bounds_concurrent_work_at_capacity() {
    let mut admission = Admission::new(2);
    assert!(admission.try_acquire());
    assert!(admission.try_acquire());
    // a third unit of work must wait until one of the first two releases
    assert!(!admission.try_acquire());
    assert_eq!(admission.in_flight, 2);
    admission.release();
    assert!(admission.try_acquire());
    assert!(!admission.try_acquire());
    admission.release();
    admission.release();
    assert_eq!(admission.in_flight, 0);
}

#[test]
fn empty_cycle_doubles_and_found_cycle_resets() {
    let (none_chosen, delay) = poll_cycle(None, None, 400);
    assert!(none_chosen.is_none());
    assert_eq!(delay, 800);
    let (chosen, delay) = poll_cycle(None, Some(task("p", TaskStatus::Pending, 1)), 800);
    assert_eq!(chosen.unwrap().task_id, "p");
    assert_eq!(delay, BACKOFF_FLOOR_MS);
}

#[test]
fn update_input_carries_the_status() {
    let input = UpdateTaskInput::new(TaskStatus::Cancelled);
    assert_eq!(input.task_status, TaskStatus::Cancelled);
    assert_eq!(TaskStatus::Cancelled.as_str(), "cancelled");
    assert_eq!(TaskStatus::Processing.as_str(), "processing");
    assert_eq!(Stage::Testing.as_str(), "testing");
    assert_eq!(Stage::Production.as_str(), "production");
}
