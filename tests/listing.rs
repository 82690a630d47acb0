use list_rs::listing::{contains_text, listing, matches_search, sort_newest_first, Listing, TaskFilter};
use list_rs::task::{Task, TaskStatus};

fn task(id: i32, text: &str, status: TaskStatus, created_at: i64) -> Task {
    Task { id, text: text.to_string(), status, tag: None, due_date: None, created_at }
}

#[test]
fn text_search() {
    assert!(contains_text("hello world", "o w"));
    assert!(contains_text("abc", ""));
    assert!(!contains_text("abc", "abcd"));
    assert!(!contains_text("abc", "ac"));
    assert!(contains_text("abc", "abc"));
}

#[test]
fn search_ignores_case() {
    assert!(matches_search("Buy MILK today", "milk"));
    assert!(matches_search("buy milk", "MiLk"));
    assert!(!matches_search("buy bread", "milk"));
}

#[test]
fn sorts_newest_first_keeping_ties() {
    let mut v = vec![
        task(1, "a", TaskStatus::Undone, 5),
        task(2, "b", TaskStatus::Undone, 9),
        task(3, "c", TaskStatus::Undone, 5),
        task(4, "d", TaskStatus::Undone, 1),
    ];
    sort_newest_first(&mut v);
    let ids: Vec<i32> = v.iter().map(|t| t.id).collect();
    assert_eq!(ids, vec![2, 1, 3, 4]);
}

#[test]
fn listing_messages_and_filters() {
    let none: Vec<Task> = vec![];
    assert!(matches!(listing(&none, &TaskFilter::Pending, false), Listing::Welcome));

    let finished = vec![task(1, "a", TaskStatus::Done, 1), task(2, "b", TaskStatus::Archived, 2)];
    assert!(matches!(listing(&finished, &TaskFilter::Pending, false), Listing::NothingPending));
    match listing(&finished, &TaskFilter::ArchivedOnly, true) {
        Listing::Tasks(v) => assert_eq!(v, vec![task(2, "b", TaskStatus::Archived, 2)]),
        _ => panic!("expected tasks"),
    }

    let mixed = vec![
        task(1, "Buy Milk", TaskStatus::Undone, 1),
        task(2, "walk", TaskStatus::Archived, 2),
        task(3, "milk again", TaskStatus::Done, 3),
    ];
    match listing(&mixed, &TaskFilter::Pending, false) {
        Listing::Tasks(v) => assert_eq!(v.iter().map(|t| t.id).collect::<Vec<_>>(), vec![1, 3]),
        _ => panic!("expected tasks"),
    }
    match listing(&mixed, &TaskFilter::Everything, true) {
        Listing::Tasks(v) => assert_eq!(v, mixed),
        _ => panic!("expected tasks"),
    }
    match listing(&mixed, &TaskFilter::Containing("MILK".to_string()), true) {
        Listing::Tasks(v) => assert_eq!(v.iter().map(|t| t.id).collect::<Vec<_>>(), vec![1, 3]),
        _ => panic!("expected tasks"),
    }
}
