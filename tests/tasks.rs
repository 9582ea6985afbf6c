use task_tracker::dispatch::{route, HostRequest};
use task_tracker::lifecycle::{Effect, HapticKind, LifecycleError, TaskManager};
use task_tracker::migration::{default_catalog, Database};
use task_tracker::store::{StoreError, TaskStore};
use task_tracker::task::{Task, TaskPatch};

fn open_store() -> TaskStore {
    TaskStore::open(Database::fresh(), &default_catalog()).ok().unwrap()
}

fn manager() -> TaskManager {
    TaskManager::new(open_store())
}

fn task(id: u64, title: &str, created_at: u64) -> Task {
    Task { id, title: title.to_string(), completed: false, scheduled_time: None, created_at, updated_at: created_at }
}

fn notified_ids(effects: &[Effect]) -> Vec<u64> {
    effects
        .iter()
        .map(|e| match e {
            Effect::NotifyDue(t) => t.id,
            Effect::HapticFeedback(_) => panic!("unexpected haptic effect"),
        })
        .collect()
}

#[test]
fn pay_rent_due_is_notified_once() {
    let mut m = manager();
    let now: u64 = 1_700_000_000;
    let t = m.create("Pay rent".to_string(), Some(now - 1), now - 10).unwrap();
    let first = m.check_due(now);
    assert_eq!(notified_ids(&first), vec![t.id]);
    match &first[0] {
        Effect::NotifyDue(n) => assert_eq!(n.title, "Pay rent"),
        _ => unreachable!(),
    }
    let second = m.check_due(now);
    assert!(second.is_empty());
}

#[test]
fn update_of_deleted_task_is_not_found() {
    let mut m = manager();
    let t = m.create("Buy milk".to_string(), None, 5).unwrap();
    assert_eq!(m.delete(t.id), Ok(()));
    assert_eq!(
        m.update(t.id, Some("X".to_string()), None, 6).err(),
        Some(LifecycleError::Store(StoreError::NotFound(t.id)))
    );
    assert_eq!(m.delete(t.id), Err(LifecycleError::Store(StoreError::NotFound(t.id))));
}

#[test]
fn unscheduled_task_is_never_notified() {
    let mut m = manager();
    m.create("Someday".to_string(), None, 1).unwrap();
    let later = m.create("Later".to_string(), Some(1000), 1).unwrap();
    assert!(m.check_due(0).is_empty());
    assert!(m.check_due(999).is_empty());
    assert_eq!(notified_ids(&m.check_due(u64::MAX)), vec![later.id]);
}

#[test]
fn complete_then_reopen_keeps_title_and_id() {
    let mut m = manager();
    let t = m.create("Water plants".to_string(), Some(50), 10).unwrap();
    assert!(matches!(m.complete(t.id, 20), Ok(Effect::HapticFeedback(HapticKind::Success))));
    assert!(m.get(t.id).unwrap().completed);
    let r = m.reopen(t.id, 30).unwrap();
    assert!(!r.completed);
    assert_eq!(r.id, t.id);
    assert_eq!(r.title, "Water plants");
    assert_eq!(r.scheduled_time, Some(50));
    assert_eq!(r.created_at, 10);
    assert_eq!(r.updated_at, 30);
    assert_eq!(m.reopen(t.id, 31).err(), Some(LifecycleError::NotCompleted(t.id)));
}

#[test]
fn second_complete_is_already_completed() {
    let mut m = manager();
    let t = m.create("File taxes".to_string(), None, 10).unwrap();
    assert!(m.complete(t.id, 11).is_ok());
    let before = m.get(t.id).unwrap();
    assert_eq!(m.complete(t.id, 12).err(), Some(LifecycleError::AlreadyCompleted(t.id)));
    let after = m.get(t.id).unwrap();
    assert!(after.completed);
    assert_eq!(after.updated_at, before.updated_at);
    assert_eq!(m.complete(999, 12).err(), Some(LifecycleError::Store(StoreError::NotFound(999))));
}

#[test]
fn completed_task_is_not_notified() {
    let mut m = manager();
    let t = m.create("Call mom".to_string(), Some(5), 1).unwrap();
    m.complete(t.id, 2).unwrap();
    assert!(m.check_due(10).is_empty());
}

#[test]
fn reopen_with_future_schedule_rearms_notification() {
    let mut m = manager();
    let t = m.create("Stretch".to_string(), Some(100), 1).unwrap();
    assert_eq!(notified_ids(&m.check_due(100)), vec![t.id]);
    m.complete(t.id, 101).unwrap();
    m.update(t.id, None, Some(Some(200)), 102).unwrap();
    m.reopen(t.id, 103).unwrap();
    assert!(m.check_due(150).is_empty());
    assert_eq!(notified_ids(&m.check_due(200)), vec![t.id]);
    assert!(m.check_due(200).is_empty());
}

#[test]
fn reopen_with_past_schedule_does_not_renotify() {
    let mut m = manager();
    let t = m.create("Stretch".to_string(), Some(100), 1).unwrap();
    assert_eq!(notified_ids(&m.check_due(100)), vec![t.id]);
    m.complete(t.id, 101).unwrap();
    m.reopen(t.id, 102).unwrap();
    assert!(m.check_due(103).is_empty());
}

#[test]
fn ids_are_sequential_and_never_reused() {
    let mut m = manager();
    let a = m.create("a".to_string(), None, 1).unwrap();
    let b = m.create("b".to_string(), None, 2).unwrap();
    assert_eq!(a.id, 1);
    assert_eq!(b.id, 2);
    m.delete(b.id).unwrap();
    let c = m.create("c".to_string(), None, 3).unwrap();
    assert_eq!(c.id, 3);
}

#[test]
fn ids_continue_after_loaded_rows() {
    let mut s = open_store();
    s.insert(task(41, "loaded", 7)).unwrap();
    let mut m = TaskManager::new(s);
    assert_eq!(m.create("new".to_string(), None, 8).unwrap().id, 42);
}

#[test]
fn exhausted_ids_refuse_creation() {
    let mut s = open_store();
    s.insert(task(u64::MAX, "last", 7)).unwrap();
    let mut m = TaskManager::new(s);
    assert_eq!(m.create("one more".to_string(), None, 8).err(), Some(LifecycleError::IdsExhausted));
    assert_eq!(m.list().len(), 1);
}

#[test]
fn list_is_ordered_by_creation_time() {
    let mut m = manager();
    m.create("late".to_string(), None, 30).unwrap();
    m.create("early".to_string(), None, 10).unwrap();
    m.create("middle".to_string(), None, 20).unwrap();
    m.create("also middle".to_string(), None, 20).unwrap();
    let titles: Vec<String> = m.list().into_iter().map(|t| t.title).collect();
    assert_eq!(titles, vec!["early", "middle", "also middle", "late"]);
}

#[test]
fn store_insert_rejects_duplicate_id() {
    let mut s = open_store();
    assert_eq!(s.insert(task(1, "a", 1)).unwrap().title, "a");
    assert_eq!(s.insert(task(1, "b", 2)).err(), Some(StoreError::DuplicateId(1)));
    assert_eq!(s.list_all().len(), 1);
    assert_eq!(s.get(1).unwrap().title, "a");
    assert_eq!(s.get(2).err(), Some(StoreError::NotFound(2)));
}

#[test]
fn store_update_refreshes_updated_at_never_before_creation() {
    let mut s = open_store();
    s.insert(task(1, "a", 100)).unwrap();
    let patch = TaskPatch { title: Some("b".to_string()), completed: Some(true), scheduled_time: Some(Some(7)) };
    let t = s.update(1, patch, 150).unwrap();
    assert_eq!(t.title, "b");
    assert!(t.completed);
    assert_eq!(t.scheduled_time, Some(7));
    assert_eq!(t.updated_at, 150);
    let none = TaskPatch { title: None, completed: None, scheduled_time: Some(None) };
    let t = s.update(1, none, 50).unwrap();
    assert_eq!(t.title, "b");
    assert_eq!(t.scheduled_time, None);
    assert_eq!(t.updated_at, 100);
    let missing = TaskPatch { title: None, completed: None, scheduled_time: None };
    assert_eq!(s.update(2, missing, 1).err(), Some(StoreError::NotFound(2)));
}

#[test]
fn store_delete_twice_is_an_error() {
    let mut s = open_store();
    s.insert(task(1, "a", 1)).unwrap();
    assert_eq!(s.delete(1), Ok(()));
    assert_eq!(s.delete(1), Err(StoreError::NotFound(1)));
    assert!(s.list_all().is_empty());
}

#[test]
fn sweep_notifies_in_list_order() {
    let mut m = manager();
    let b = m.create("b".to_string(), Some(5), 20).unwrap();
    let a = m.create("a".to_string(), Some(5), 10).unwrap();
    let _c = m.create("c".to_string(), Some(50), 30).unwrap();
    assert_eq!(notified_ids(&m.check_due(10)), vec![a.id, b.id]);
}

#[test]
fn due_effect_routes_to_notification() {
    let t = Task { id: 3, title: "Pay rent".to_string(), completed: false, scheduled_time: Some(9), created_at: 1, updated_at: 1 };
    match route(&Effect::NotifyDue(t)) {
        HostRequest::Notification { title, body, scheduled_at } => {
            assert_eq!(title, "Task due");
            assert_eq!(body, "Pay rent");
            assert_eq!(scheduled_at, Some(9));
        }
        _ => panic!("expected a notification"),
    }
    assert!(matches!(
        route(&Effect::HapticFeedback(HapticKind::Success)),
        HostRequest::Haptic(HapticKind::Success)
    ));
}
