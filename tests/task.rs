use list_rs::task::{Task, TaskStatus};

#[test]
fn status_names_read_back() {
    for s in [TaskStatus::Done, TaskStatus::Undone, TaskStatus::Archived] {
        assert_eq!(TaskStatus::from_str(s.as_str()), Some(s));
    }
    assert_eq!(TaskStatus::Archived.as_str(), "Archived");
    assert_eq!(TaskStatus::from_str("Done"), Some(TaskStatus::Done));
    assert_eq!(TaskStatus::from_str("done"), None);
    assert_eq!(TaskStatus::from_str(""), None);
    assert_eq!(TaskStatus::from_str("Undone "), None);
}

#[test]
fn new_task_keeps_its_fields() {
    let t = Task::new(3, "Walk", TaskStatus::Done, Some("dog".to_string()), None);
    assert_eq!(t.id, 3);
    assert_eq!(t.text, "Walk");
    assert_eq!(t.status, TaskStatus::Done);
    assert_eq!(t.tag, Some("dog".to_string()));
    assert_eq!(t.due_date, None);
    assert_eq!(t.snapshot(), t);
}

#[test]
fn default_task() {
    let t = Task::default();
    assert_eq!(t.id, 1);
    assert_eq!(t.text, "");
    assert_eq!(t.status, TaskStatus::Undone);
    assert_eq!(t.created_at, 0);
}
