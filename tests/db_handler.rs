use list_rs::db_handler::{DatabaseHandler, Replay, TaskError};
use list_rs::history::InverseOp;
use list_rs::task::{Task, TaskStatus};

fn setup_single_task() -> (DatabaseHandler, Task) {
    let db_handler = DatabaseHandler::new_in_memory();
    let expected = Task::new(1, "", TaskStatus::Undone, None, None);
    (db_handler, expected)
}

fn setup_multiple_tasks() -> (DatabaseHandler, Vec<Task>) {
    let db_handler = DatabaseHandler::new_in_memory();

    let tasks = vec![
        Task::new(1, "Buy fruits, vegetables, and bread.", TaskStatus::Undone, None, None),
        Task::new(2, "Change oil and check tire pressure.", TaskStatus::Undone, None, None),
        Task::new(3, "Read chapter 5 of the history book.", TaskStatus::Undone, None, None),
        Task::new(4, "30 minutes of cardio and weight lifting.", TaskStatus::Undone, None, None),
        Task::new(5, "Try out the new pasta recipe.", TaskStatus::Undone, None, None),
    ];

    (db_handler, tasks)
}

fn task(id: i32, text: &str, created_at: i64) -> Task {
    Task {
        id,
        text: text.to_string(),
        status: TaskStatus::Undone,
        tag: None,
        due_date: None,
        created_at,
    }
}

#[test]
fn create_task_should_work() {
    let (mut db_handler, expected) = setup_single_task();
    let _ = db_handler.create_task(expected.clone());

    let tasks = db_handler.read_tasks();
    let actual = tasks[0].clone();

    assert_eq!(expected, actual);
}

#[test]
fn delete_task_should_work() {
    let (mut db_handler, expected) = setup_single_task();
    let _ = db_handler.create_task(expected.clone());

    let _ = db_handler.delete_task(1);
    let tasks = db_handler.read_tasks();

    assert_eq!(0, tasks.len());
}

#[test]
fn create_multiple_tasks_should_work() {
    let (mut db_handler, expected) = setup_multiple_tasks();

    for task in &expected {
        let _ = db_handler.create_task(task.clone());
    }

    let actual = db_handler.read_tasks();
    assert_eq!(actual, expected);
}

#[test]
fn update_task_should_work() {
    let (mut db_handler, mut expected) = setup_multiple_tasks();

    for task in &expected {
        let _ = db_handler.create_task(task.clone());
    }

    let _ = db_handler.update_task(1, &Task::default());

    let actual = db_handler.read_tasks();
    // An update never changes when a task was created.
    let created_at = expected[0].created_at;
    expected[0] = Task { created_at, ..Task::default() };

    assert_eq!(actual, expected);
}

#[test]
fn undo_create_should_work() {
    let (mut db_handler, expected) = setup_single_task();

    let _ = db_handler.create_task(expected.clone());
    let _ = db_handler.undo();

    let actual = db_handler.read_tasks();
    let expected: Vec<Task> = vec![];

    assert_eq!(expected, actual);
}

#[test]
fn undo_delete_should_work() {
    let (mut db_handler, expected) = setup_single_task();

    let _ = db_handler.create_task(expected.clone());
    let _ = db_handler.delete_task(1);
    let _ = db_handler.undo();

    let actual = db_handler.read_tasks();

    assert_eq!(vec![expected], actual);
}

#[test]
fn undo_update_should_work() {
    let (mut db_handler, expected) = setup_single_task();
    let _ = db_handler.create_task(expected.clone());

    let _ = db_handler.update_task(
        1,
        &Task::new(1234, "An updated task", TaskStatus::Undone, None, None),
    );

    let _ = db_handler.undo();

    let actual = db_handler.read_tasks();

    assert_eq!(vec![expected], actual);
}

#[test]
fn create_then_undo_leaves_no_task() {
    let mut db = DatabaseHandler::new_in_memory();
    assert_eq!(db.create_task(task(7, "Buy milk", 10)), Ok(1));
    assert_eq!(db.undo(), Ok(Replay::Applied));
    assert!(db.read_tasks().is_empty());
}

#[test]
fn delete_then_undo_brings_task_back() {
    let mut db = DatabaseHandler::new_in_memory();
    let x = task(1, "X", 42);
    assert_eq!(db.create_task(x.clone()), Ok(1));
    assert_eq!(db.delete_task(1), Ok(()));
    assert_eq!(db.read_task(1), None);
    assert_eq!(db.undo(), Ok(Replay::Applied));
    assert_eq!(db.read_task(1), Some(x.clone()));
    assert_eq!(db.read_tasks(), vec![x]);
}

#[test]
fn update_then_undo_restores_every_field() {
    let mut db = DatabaseHandler::new_in_memory();
    let x = Task {
        id: 1,
        text: "X".to_string(),
        status: TaskStatus::Undone,
        tag: Some("home".to_string()),
        due_date: Some("2024-05-01".to_string()),
        created_at: 99,
    };
    assert_eq!(db.create_task(x.clone()), Ok(1));
    let mut y = x.clone();
    y.text = "Y".to_string();
    y.tag = None;
    y.status = TaskStatus::Done;
    assert_eq!(db.update_task(1, &y), Ok(()));
    assert_eq!(db.read_task(1).unwrap().text, "Y");
    assert_eq!(db.read_task(1).unwrap().tag, None);
    assert_eq!(db.undo(), Ok(Replay::Applied));
    assert_eq!(db.read_tasks(), vec![x]);
}

#[test]
fn three_undos_and_three_redos() {
    let mut db = DatabaseHandler::new_in_memory();
    assert_eq!(db.create_task(task(0, "A", 1)), Ok(1));
    assert_eq!(db.create_task(task(0, "B", 2)), Ok(2));
    assert_eq!(db.update_task(1, &task(0, "A2", 5)), Ok(()));
    let end = db.read_tasks();
    assert_eq!(end, vec![task(1, "A2", 1), task(2, "B", 2)]);
    for _ in 0..3 {
        assert_eq!(db.undo(), Ok(Replay::Applied));
    }
    assert!(db.read_tasks().is_empty());
    assert_eq!(db.undo(), Ok(Replay::NothingToReplay));
    for _ in 0..3 {
        assert_eq!(db.redo(), Ok(Replay::Applied));
    }
    assert_eq!(db.read_tasks(), end);
    assert_eq!(db.redo(), Ok(Replay::NothingToReplay));
}

#[test]
fn empty_logs_replay_nothing() {
    let mut db = DatabaseHandler::new_in_memory();
    assert_eq!(db.undo(), Ok(Replay::NothingToReplay));
    assert_eq!(db.redo(), Ok(Replay::NothingToReplay));
    assert!(db.read_tasks().is_empty());
    assert_eq!(db.next_id(), 1);
}

#[test]
fn undo_run_of_changes_in_reverse() {
    let mut db = DatabaseHandler::new_in_memory();
    assert_eq!(db.create_task(task(0, "one", 1)), Ok(1));
    assert_eq!(db.create_task(task(0, "two", 2)), Ok(2));
    assert_eq!(db.create_task(task(0, "three", 3)), Ok(3));
    let before = db.read_tasks();
    assert_eq!(db.delete_task(2), Ok(()));
    assert_eq!(db.update_task(3, &task(0, "THREE", 30)), Ok(()));
    assert_eq!(db.create_task(task(0, "four", 4)), Ok(4));
    assert_eq!(db.delete_task(1), Ok(()));
    assert_eq!(db.read_tasks(), vec![task(3, "THREE", 3), task(4, "four", 4)]);
    for _ in 0..4 {
        assert_eq!(db.undo(), Ok(Replay::Applied));
    }
    assert_eq!(db.read_tasks(), before);
}

#[test]
fn redo_after_undo_matches_the_change() {
    let mut db = DatabaseHandler::new_in_memory();
    assert_eq!(db.create_task(task(0, "a", 1)), Ok(1));
    assert_eq!(db.create_task(task(0, "b", 2)), Ok(2));
    assert_eq!(db.delete_task(1), Ok(()));
    let after = db.read_tasks();
    assert_eq!(db.undo(), Ok(Replay::Applied));
    assert_eq!(db.redo(), Ok(Replay::Applied));
    assert_eq!(db.read_tasks(), after);
}

#[test]
fn new_task_after_undo_gets_a_fresh_id() {
    let mut db = DatabaseHandler::new_in_memory();
    assert_eq!(db.create_task(task(0, "a", 1)), Ok(1));
    assert_eq!(db.undo(), Ok(Replay::Applied));
    assert_eq!(db.create_task(task(0, "b", 2)), Ok(2));
    assert_eq!(db.read_tasks(), vec![task(2, "b", 2)]);
}

#[test]
fn missing_task_is_not_found() {
    let mut db = DatabaseHandler::new_in_memory();
    assert_eq!(db.update_task(3, &task(0, "x", 0)), Err(TaskError::NotFound));
    assert_eq!(db.delete_task(3), Err(TaskError::NotFound));
    assert_eq!(db.read_task(3), None);
    assert_eq!(db.undo(), Ok(Replay::NothingToReplay));
}

#[test]
fn used_up_identifiers_are_a_storage_error() {
    let mut db = DatabaseHandler::restore(vec![], i32::MAX, vec![], vec![]).unwrap();
    assert_eq!(db.create_task(task(0, "x", 0)), Err(TaskError::StorageError));
    assert!(db.read_tasks().is_empty());
    assert!(db.undo_log().is_empty());
}

#[test]
fn entry_that_cannot_apply_is_corrupt_history() {
    let mut db = DatabaseHandler::restore(
        vec![task(1, "a", 1)],
        2,
        vec![InverseOp::Remove(9)],
        vec![InverseOp::Recreate(task(1, "dup", 1))],
    )
    .unwrap();
    assert_eq!(db.undo(), Err(TaskError::CorruptHistory));
    assert!(db.undo_log().is_empty());
    assert_eq!(db.redo(), Err(TaskError::CorruptHistory));
    assert!(db.redo_log().is_empty());
    assert_eq!(db.read_tasks(), vec![task(1, "a", 1)]);
}

#[test]
fn restore_checks_the_tasks() {
    assert!(DatabaseHandler::restore(vec![task(2, "a", 1), task(1, "b", 1)], 5, vec![], vec![]).is_none());
    assert!(DatabaseHandler::restore(vec![task(5, "a", 1)], 5, vec![], vec![]).is_none());
    assert!(DatabaseHandler::restore(vec![task(0, "a", 1)], 5, vec![], vec![]).is_none());
    assert!(DatabaseHandler::restore(vec![], 0, vec![], vec![]).is_none());
    let db = DatabaseHandler::restore(vec![task(1, "a", 1), task(4, "b", 1)], 5, vec![], vec![]).unwrap();
    assert_eq!(db.next_id(), 5);
    assert_eq!(db.read_tasks().len(), 2);
}

#[test]
fn undo_files_inverse_in_redo_log() {
    let mut db = DatabaseHandler::new_in_memory();
    let t = task(0, "a", 3);
    assert_eq!(db.create_task(t), Ok(1));
    assert_eq!(db.undo_log(), &vec![InverseOp::Remove(1)]);
    assert_eq!(db.undo(), Ok(Replay::Applied));
    assert_eq!(db.redo_log(), &vec![InverseOp::Recreate(task(1, "a", 3))]);
    assert_eq!(db.redo(), Ok(Replay::Applied));
    assert_eq!(db.undo_log(), &vec![InverseOp::Remove(1)]);
    assert!(db.redo_log().is_empty());
}

#[test]
fn recreate_keeps_identifier_order() {
    let mut db = DatabaseHandler::new_in_memory();
    for name in ["a", "b", "c"] {
        let _ = db.create_task(task(0, name, 0));
    }
    assert_eq!(db.delete_task(2), Ok(()));
    assert_eq!(db.undo(), Ok(Replay::Applied));
    let ids: Vec<i32> = db.read_tasks().iter().map(|t| t.id).collect();
    assert_eq!(ids, vec![1, 2, 3]);
}
