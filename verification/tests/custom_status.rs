use vellum_fe::custom_status::{CustomStatusTimers, StatusAction};

fn set(id: &str, ms: Option<u64>) -> StatusAction {
    StatusAction { set: Some((id.to_string(), ms)), clear: None }
}

fn clear(id: &str) -> StatusAction {
    StatusAction { set: None, clear: Some(id.to_string()) }
}

#[test]
fn actions_report_changes_in_order_and_track_deadlines() {
    let mut timers = CustomStatusTimers::new();
    let flips = timers.apply_pending_status_actions(
        &vec![set("Poisoned", Some(5_000)), set("hidden", None), clear("Webbed")],
        1_000,
    );
    assert_eq!(
        flips,
        vec![("Poisoned".to_string(), true), ("hidden".to_string(), true), ("Webbed".to_string(), false)]
    );
    assert!(timers.tick_custom_statuses(5_999).is_empty());
    assert_eq!(timers.tick_custom_statuses(6_000), vec!["POISONED".to_string()]);
    // Reported once only.
    assert!(timers.tick_custom_statuses(10_000).is_empty());
}

#[test]
fn clearing_or_an_untimed_set_cancels_the_deadline_ignoring_case() {
    let mut timers = CustomStatusTimers::new();
    timers.apply_pending_status_actions(&vec![set("stun", Some(100)), set("bleed", Some(100))], 0);
    timers.apply_pending_status_actions(&vec![clear("STUN"), set("Bleed", Some(0))], 50);
    assert!(timers.tick_custom_statuses(1_000).is_empty());
}
