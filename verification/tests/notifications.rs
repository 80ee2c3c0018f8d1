use teamwork_launcher::application::notifications::{Notification, NotificationKind, Notifications};
use teamwork_launcher::time::{Duration, Instant};

#[test]
fn test_take_empty() {
    let mut notifications = Notifications::new();

    notifications.push(Notification::new("test", None, NotificationKind::Feedback));

    assert_eq!(notifications.take_next_pending(), None);
}

#[test]
fn test_take_one() {
    let mut notifications = Notifications::new();
    let notification = Notification::new("test2", None, NotificationKind::Feedback);

    notifications.push(Notification::new("test", None, NotificationKind::Feedback));
    notifications.push(notification.clone());

    assert_eq!(
        notifications.take_next_pending().as_ref().map(|(n, _)| n),
        Some(&notification)
    );
    assert_eq!(notifications.take_next_pending(), None);
}

#[test]
fn test_take_two() {
    let mut notifications = Notifications::new();
    let notification = Notification::new("test2", None, NotificationKind::Feedback);
    let notification2 = Notification::new("test3", None, NotificationKind::Feedback);

    notifications.push(Notification::new("test", None, NotificationKind::Feedback));
    notifications.push(notification.clone());
    notifications.push(notification2.clone());

    assert_eq!(
        notifications.take_next_pending().as_ref().map(|(n, _)| n),
        Some(&notification)
    );
    assert_eq!(
        notifications.take_next_pending().as_ref().map(|(n, _)| n),
        Some(&notification2)
    );
    assert_eq!(notifications.take_next_pending(), None);
}

#[test]
fn test_clear_current() {
    let mut notifications = Notifications::new();
    let notification = Notification::new("test", None, NotificationKind::Feedback);

    notifications.push(notification.clone());
    notifications.clear_current();

    assert_eq!(notifications.current(), None);
}

#[test]
fn test_update() {
    let mut notifications = Notifications::new();
    let notification0 = Notification::new("test0", Some(Duration::from_secs(1)), NotificationKind::Feedback);
    let notification1 = Notification::new("test1", None, NotificationKind::Feedback);

    notifications.push(notification0.clone());
    notifications.push(notification1.clone());
    notifications.update(notifications.now().plus(Duration::from_millis(1)));
    assert_eq!(notifications.current(), Some(&notification0));
    notifications.update(notifications.now().plus(Duration::from_secs(10)));
    assert_eq!(notifications.current(), Some(&notification1));
    notifications.update(notifications.now().plus(Duration::from_secs(100)));
    assert_eq!(notifications.current(), Some(&notification1));
}

#[test]
fn same_notifications_combine_into_one_with_a_multiplier() {
    let mut notifications = Notifications::new();

    notifications.push(Notification::new("copied", None, NotificationKind::Feedback));
    notifications.push(Notification::new("copied", None, NotificationKind::Feedback));
    notifications.push(Notification::new("copied", None, NotificationKind::Error));

    assert_eq!(notifications.current().map(|n| n.multiplier), Some(2));
    notifications.clear_current();
    assert_eq!(notifications.current().map(|n| n.kind), Some(NotificationKind::Error));
    notifications.clear_current();
    assert_eq!(notifications.current(), None);
}

#[test]
fn an_error_never_expires() {
    let mut notifications = Notifications::new();

    notifications.push(Notification::new("error", None, NotificationKind::Error));
    notifications.update(notifications.now().plus(Duration::from_secs(1000)));

    assert_eq!(notifications.current().map(|n| n.text.clone()), Some("error".to_string()));
}

#[test]
fn a_repeated_notification_restarts_its_time() {
    let mut notifications = Notifications::new();
    let expiry = Some(Duration::from_secs(2));
    notifications.push_at(Notification::new("saved", expiry, NotificationKind::Feedback), Instant::from_nanos(0));
    notifications.push_at(
        Notification::new("saved", expiry, NotificationKind::Feedback),
        Instant::from_nanos(1_500_000_000),
    );
    assert_eq!(notifications.current().map(|n| n.multiplier), Some(2));

    notifications.update(Instant::from_nanos(3_000_000_000));
    assert!(notifications.current().is_some());
    notifications.update(Instant::from_nanos(3_500_000_000));
    assert!(notifications.current().is_none());
}
