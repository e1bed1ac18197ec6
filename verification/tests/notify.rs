use vibeshell::gestures::GestureAction;
use vibeshell::notify::{capabilities, notification_timeout, server_information, CardGenerations, NotificationIds, Urgency};
use vibeshell::reload::ReloadReason;

#[test]
fn urgency_follows_the_hint_level() {
    assert_eq!(Urgency::from_level(None), Urgency::Normal);
    assert_eq!(Urgency::from_level(Some(0)), Urgency::Normal);
    assert_eq!(Urgency::from_level(Some(1)), Urgency::Normal);
    assert_eq!(Urgency::from_level(Some(2)), Urgency::Critical);
    assert_eq!(Urgency::Critical.css_class(), "critical");
    assert_eq!(Urgency::Normal.css_class(), "normal");
}

#[test]
fn timeouts_follow_the_sender() {
    assert_eq!(notification_timeout(1500), Some(1500));
    assert_eq!(notification_timeout(0), None);
    assert_eq!(notification_timeout(-1), Some(5_000));
}

#[test]
fn ids_count_up_unless_replacing() {
    let mut ids = NotificationIds::new();
    assert_eq!(ids.assign(0), 1);
    assert_eq!(ids.assign(0), 2);
    assert_eq!(ids.assign(7), 7);
    assert_eq!(ids.assign(0), 3);
}

#[test]
fn card_timer_only_closes_the_card_it_was_started_for() {
    let mut cards = CardGenerations::new();
    let g = cards.add(4);
    assert!(cards.is_current(4, g));
    cards.close(4);
    assert!(!cards.is_current(4, g));
    let g2 = cards.add(4);
    assert!(cards.is_current(4, g2));
    assert!(!cards.is_current(5, g2));
}

#[test]
fn server_describes_itself() {
    assert_eq!(capabilities(), vec!["body".to_owned(), "body-markup".to_owned(), "icon-static".to_owned()]);
    let info = server_information("0.1.0");
    assert_eq!(info, ("vibeshell-notifd".to_owned(), "vibeshell".to_owned(), "0.1.0".to_owned(), "1.2".to_owned()));
}

#[test]
fn reload_reasons_read_as_logged() {
    assert_eq!(ReloadReason::Signal.as_str(), "SIGHUP");
    assert_eq!(ReloadReason::Command.as_str(), "vibeshellctl reload");
}

#[test]
fn gesture_actions_map_to_vibeshellctl_arguments() {
    assert_eq!(
        GestureAction::CycleClusterForward.vibeshellctl_args(),
        vec!["ipc", "cycle-cluster", "--direction", "forward"]
    );
    assert_eq!(
        GestureAction::CycleClusterBackward.vibeshellctl_args(),
        vec!["ipc", "cycle-cluster", "--direction", "backward"]
    );
    assert_eq!(GestureAction::ZoomInMode.vibeshellctl_args(), vec!["ipc", "zoom-in-mode"]);
    assert_eq!(GestureAction::ZoomOutMode.vibeshellctl_args(), vec!["ipc", "zoom-out-mode"]);
}
