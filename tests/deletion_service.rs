use gallery_backend::service::deletion_service::{
    DeletionError, DeletionService, PendingDeletion, SnapshotError, DEFAULT_GRACE_PERIOD,
    SECONDS_PER_DAY,
};

const T0: i64 = 1_700_000_000;

fn user(name: &str) -> String {
    name.to_string()
}

fn sorted_pairs(entries: &[PendingDeletion]) -> Vec<(String, i64)> {
    let mut pairs: Vec<(String, i64)> =
        entries.iter().map(|e| (e.user_id.clone(), e.deadline)).collect();
    pairs.sort();
    pairs
}

#[test]
fn default_grace_period_is_thirty_days() {
    assert_eq!(DEFAULT_GRACE_PERIOD, 30 * 24 * 60 * 60);
    assert_eq!(DeletionService::new().grace_period(), 2_592_000);
}

#[test]
fn delete_sets_deadline_after_grace_period() {
    let mut s = DeletionService::new();
    assert_eq!(s.delete(&user("u1"), T0), Ok(()));
    assert_eq!(s.deadline_of(&user("u1")), Some(T0 + 30 * SECONDS_PER_DAY));
    assert_eq!(s.deadline_of(&user("u2")), None);
}

#[test]
fn second_schedule_is_refused_and_keeps_deadline() {
    let mut s = DeletionService::new();
    assert_eq!(s.schedule(&user("alice"), T0 + 100), Ok(()));
    assert_eq!(s.schedule(&user("alice"), T0 + 5), Err(DeletionError::AlreadyScheduled));
    assert_eq!(s.deadline_of(&user("alice")), Some(T0 + 100));
    assert_eq!(s.delete(&user("alice"), T0 + 50), Err(DeletionError::AlreadyScheduled));
    assert_eq!(s.deadline_of(&user("alice")), Some(T0 + 100));
    assert_eq!(s.get_requests().len(), 1);
}

#[test]
fn cancelled_request_is_never_due() {
    let mut s = DeletionService::new();
    s.schedule(&user("bob"), T0).unwrap();
    s.cancel(&user("bob"));
    assert!(s.due(T0).is_empty());
    assert!(s.due(T0 + 1_000_000).is_empty());
    assert_eq!(s.deadline_of(&user("bob")), None);
}

#[test]
fn cancel_of_absent_user_changes_nothing() {
    let mut s = DeletionService::new();
    s.schedule(&user("a"), T0).unwrap();
    s.cancel(&user("nobody"));
    assert_eq!(sorted_pairs(&s.get_requests()), vec![(user("a"), T0)]);
    s.cancel(&user("a"));
    s.cancel(&user("a"));
    assert!(s.get_requests().is_empty());
}

#[test]
fn due_only_from_deadline_on() {
    let mut s = DeletionService::new();
    s.schedule(&user("carol"), T0).unwrap();
    assert!(s.due(T0 - 1).is_empty());
    assert_eq!(s.due(T0), vec![user("carol")]);
    assert_eq!(s.due(T0 + 1), vec![user("carol")]);
}

#[test]
fn due_lists_each_matured_user_once() {
    let mut s = DeletionService::new();
    s.schedule(&user("a"), 10).unwrap();
    s.schedule(&user("b"), 30).unwrap();
    s.schedule(&user("c"), 20).unwrap();
    s.schedule(&user("d"), i64::MAX).unwrap();
    let mut due = s.due(20);
    due.sort();
    assert_eq!(due, vec![user("a"), user("c")]);
    let mut all = s.due(i64::MAX);
    all.sort();
    assert_eq!(all, vec![user("a"), user("b"), user("c"), user("d")]);
    assert!(s.due(i64::MIN).is_empty());
}

#[test]
fn due_does_not_change_the_registry() {
    let mut s = DeletionService::new();
    s.schedule(&user("a"), 10).unwrap();
    let _ = s.due(100);
    assert_eq!(s.deadline_of(&user("a")), Some(10));
}

#[test]
fn snapshot_round_trip_keeps_every_pair() {
    let mut s = DeletionService::new();
    s.schedule(&user("x"), T0 + 1).unwrap();
    s.schedule(&user("y"), T0 - 7).unwrap();
    s.schedule(&user("z"), T0).unwrap();
    s.cancel(&user("y"));
    let snapshot = s.get_requests();
    let restored = DeletionService::from(snapshot).unwrap();
    assert_eq!(
        sorted_pairs(&restored.get_requests()),
        vec![(user("x"), T0 + 1), (user("z"), T0)]
    );
    assert_eq!(restored.deadline_of(&user("x")), Some(T0 + 1));
    assert_eq!(restored.deadline_of(&user("y")), None);
    assert_eq!(restored.grace_period(), DEFAULT_GRACE_PERIOD);
}

#[test]
fn empty_snapshot_gives_empty_registry() {
    let restored = DeletionService::from(Vec::new()).unwrap();
    assert!(restored.get_requests().is_empty());
}

#[test]
fn snapshot_naming_a_user_twice_is_refused() {
    let entries = vec![
        PendingDeletion { user_id: user("a"), deadline: 1 },
        PendingDeletion { user_id: user("b"), deadline: 2 },
        PendingDeletion { user_id: user("a"), deadline: 3 },
    ];
    assert!(matches!(DeletionService::from(entries), Err(SnapshotError::DuplicateUser)));
}

#[test]
fn hundred_requests_then_hundred_withdrawals_leave_registry_empty() {
    let mut s = DeletionService::new();
    let users: Vec<String> = (0..100).map(|i| format!("user-{}", i)).collect();
    for u in &users {
        assert_eq!(s.delete(u, T0), Ok(()));
    }
    assert_eq!(s.get_requests().len(), 100);
    for u in &users {
        s.cancel(u);
    }
    assert!(s.get_requests().is_empty());
    assert!(s.due(i64::MAX).is_empty());
}

#[test]
fn remove_if_present_twice_equals_once() {
    let mut s = DeletionService::new();
    s.schedule(&user("a"), 1).unwrap();
    s.schedule(&user("b"), 2).unwrap();
    s.remove_if_present(&user("a"));
    let once = sorted_pairs(&s.get_requests());
    s.remove_if_present(&user("a"));
    assert_eq!(sorted_pairs(&s.get_requests()), once);
    assert_eq!(once, vec![(user("b"), 2)]);
}

#[test]
fn custom_grace_period_is_used() {
    let mut s = DeletionService::with_grace_period(1);
    assert_eq!(s.grace_period(), 1);
    s.delete(&user("u2"), T0).unwrap();
    assert_eq!(s.deadline_of(&user("u2")), Some(T0 + 1));
}

#[test]
fn set_grace_period_keeps_pending_deadlines() {
    let mut s = DeletionService::new();
    s.delete(&user("old"), T0).unwrap();
    s.set_grace_period(60);
    s.delete(&user("new"), T0).unwrap();
    assert_eq!(s.deadline_of(&user("old")), Some(T0 + DEFAULT_GRACE_PERIOD));
    assert_eq!(s.deadline_of(&user("new")), Some(T0 + 60));
}
