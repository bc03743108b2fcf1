use claw::tasks::{TaskInfo, TaskManager, TaskNotification, TaskState, Timestamp};

fn info(id: &str, name: &str) -> TaskInfo {
    TaskInfo {
        id: id.to_string(),
        name: name.to_string(),
        state: TaskState::Pending,
        output: None,
        created_at: Timestamp { secs: 1_700_000_000, nanos: 0 },
        finished_at: None,
    }
}

#[test]
fn register_get_and_list() {
    let mut m = TaskManager::new();
    m.register(info("a", "build"));
    m.register(info("b", "test"));
    m.register(info("a", "rebuild"));
    assert_eq!(m.get("a").unwrap().name, "rebuild");
    assert!(m.get("zzz").is_none());
    let mut names: Vec<String> = m.list().into_iter().map(|t| t.name).collect();
    names.sort();
    assert_eq!(names, vec!["rebuild", "test"]);
}

#[test]
fn terminal_states_record_finish_time() {
    let mut m = TaskManager::default();
    m.register(info("a", "build"));
    let t = Timestamp { secs: 1_700_000_100, nanos: 5 };
    m.update_state_at("a", TaskState::Running, t);
    let a = m.get("a").unwrap();
    assert_eq!(a.state, TaskState::Running);
    assert!(a.finished_at.is_none());
    m.update_state_at("a", TaskState::Completed, t);
    assert_eq!(m.get("a").unwrap().finished_at, Some(t));
    m.cancel_at("missing", t);
    assert!(m.get("missing").is_none());
}

#[test]
fn cancel_stamps_current_time() {
    let mut m = TaskManager::new();
    m.register(info("a", "build"));
    assert_eq!(m.cancel("a"), Ok(()));
    let a = m.get("a").unwrap();
    assert_eq!(a.state, TaskState::Cancelled);
    let f = a.finished_at.unwrap();
    assert!(f.secs > 1_600_000_000);
    assert_eq!(m.update_state("a", TaskState::Failed), Ok(()));
    assert_eq!(m.get("a").unwrap().state, TaskState::Failed);
    assert_eq!(m.update_state("missing", TaskState::Completed), Ok(()));
    assert_eq!(m.update_state("a", TaskState::Running), Ok(()));
    let a = m.get("a").unwrap();
    assert_eq!(a.state, TaskState::Running);
    assert!(a.finished_at.is_some());
}

#[test]
fn output_is_recorded() {
    let mut m = TaskManager::new();
    m.register(info("a", "build"));
    m.set_output("a", "done".to_string());
    assert_eq!(m.get("a").unwrap().output.as_deref(), Some("done"));
}

#[test]
fn notifications_drain_in_order() {
    let mut m = TaskManager::new();
    m.push_notification(TaskNotification { task_id: "a".to_string(), message: "one".to_string(), is_final: false });
    m.push_notification(TaskNotification { task_id: "a".to_string(), message: "two".to_string(), is_final: true });
    let drained: Vec<String> = m.drain_notifications().into_iter().map(|n| n.message).collect();
    assert_eq!(drained, vec!["one", "two"]);
    assert!(m.drain_notifications().is_empty());
}
