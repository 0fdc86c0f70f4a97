use vellum_fe::alert_timers::{cancel, reap, start, try_start, ActiveEffectsContent, TIMERS_CATEGORY};

fn store() -> ActiveEffectsContent {
    ActiveEffectsContent {
        category: TIMERS_CATEGORY.to_string(),
        effects: Vec::new(),
        generation: 0,
    }
}

#[test]
fn starting_a_timer_creates_a_full_bar_with_an_absolute_deadline() {
    let mut s = store();
    start(&mut s, "boss", "Boss cast", 12, None, 1_000);
    assert_eq!(s.effects.len(), 1);
    let t = &s.effects[0];
    assert_eq!(t.text, "Boss cast");
    assert_eq!(t.value, 100, "starts full");
    assert_eq!(t.expires_at, Some(1_012), "absolute, so it cannot drift");
    assert_eq!(t.time, "00:00:12", "at-arrival duration drives the drain");
}

#[test]
fn restarting_an_id_resets_it_instead_of_stacking_a_duplicate() {
    let mut s = store();
    start(&mut s, "boss", "Boss cast", 10, None, 1_000);
    start(&mut s, "boss", "Boss cast", 10, None, 1_006);
    assert_eq!(s.effects.len(), 1, "one bar, not two");
    assert_eq!(s.effects[0].expires_at, Some(1_016), "deadline reset");
}

#[test]
fn cancelling_removes_the_named_timer_and_leaves_the_rest() {
    let mut s = store();
    start(&mut s, "boss", "Boss cast", 10, None, 1_000);
    start(&mut s, "adds", "Adds spawn", 30, None, 1_000);

    assert!(cancel(&mut s, &["boss".to_string()]));
    assert_eq!(s.effects.len(), 1);
    assert_eq!(s.effects[0].id, "adds");
}

#[test]
fn cancelling_is_case_insensitive_and_reports_when_it_did_nothing() {
    let mut s = store();
    start(&mut s, "Boss", "Boss cast", 10, None, 1_000);
    assert!(cancel(&mut s, &["BOSS".to_string()]));
    assert!(s.effects.is_empty());
    // Nothing to remove: the caller can skip a window sync.
    assert!(!cancel(&mut s, &["ghost".to_string()]));
    assert!(!cancel(&mut s, &[]));
}

#[test]
fn expired_timers_are_reaped_because_no_server_will_remove_them() {
    let mut s = store();
    start(&mut s, "short", "Short", 5, None, 1_000);
    start(&mut s, "long", "Long", 60, None, 1_000);

    assert!(!reap(&mut s, 1_004), "nothing expired yet");
    assert_eq!(s.effects.len(), 2);

    assert!(reap(&mut s, 1_006), "the short one is done");
    assert_eq!(s.effects.len(), 1);
    assert_eq!(s.effects[0].id, "long");
}

#[test]
fn every_mutation_bumps_generation_so_the_tui_rebuilds() {
    let mut s = store();
    let g0 = s.generation;
    start(&mut s, "a", "A", 5, None, 1_000);
    assert!(s.generation > g0, "start bumps");

    let g1 = s.generation;
    reap(&mut s, 1_100);
    assert!(s.generation > g1, "reap bumps");

    start(&mut s, "b", "B", 5, None, 1_000);
    let g2 = s.generation;
    cancel(&mut s, &["b".to_string()]);
    assert!(s.generation > g2, "cancel bumps");
}

#[test]
fn a_zero_duration_timer_expires_immediately_rather_than_sticking() {
    let mut s = store();
    start(&mut s, "instant", "Instant", 0, None, 1_000);
    assert!(reap(&mut s, 1_000), "already past its deadline");
    assert!(s.effects.is_empty());
}

#[test]
fn a_negative_duration_is_clamped_not_turned_into_a_past_deadline() {
    let mut s = store();
    start(&mut s, "bad", "Bad", -30, None, 1_000);
    assert_eq!(
        s.effects[0].expires_at,
        Some(1_000),
        "clamped to zero, not 30s in the past"
    );
}

#[test]
fn long_durations_format_as_hours_minutes_seconds() {
    let mut s = store();
    start(&mut s, "long", "Long", 3_725, Some("#ff0000"), 0);
    assert_eq!(s.effects[0].time, "01:02:05");
    assert_eq!(s.effects[0].bar_color.as_deref(), Some("#ff0000"));
    start(&mut s, "day", "Day", 360_000, None, 0);
    assert_eq!(s.effects[1].time, "100:00:00");
}

#[test]
fn restarting_keeps_the_text_color_and_replaces_the_bar_color() {
    let mut s = store();
    start(&mut s, "boss", "Boss", 10, Some("#00ff00"), 0);
    s.effects[0].text_color = Some("#ffffff".to_string());
    start(&mut s, "boss", "Boss again", 20, None, 5);
    assert_eq!(s.effects.len(), 1);
    assert_eq!(s.effects[0].text, "Boss again");
    assert_eq!(s.effects[0].bar_color, None);
    assert_eq!(s.effects[0].text_color.as_deref(), Some("#ffffff"));
    assert_eq!(s.effects[0].expires_at, Some(25));
}

#[test]
fn reaping_drops_effects_without_a_deadline_and_leaves_generation_alone_when_idle() {
    let mut s = store();
    start(&mut s, "a", "A", 10, None, 0);
    s.effects[0].expires_at = None;
    let g = s.generation;
    assert!(reap(&mut s, 0));
    assert_eq!(s.generation, g + 1);
    assert!(!reap(&mut s, 0));
    assert_eq!(s.generation, g + 1);
}

#[test]
fn a_timer_that_cannot_be_counted_or_timed_is_refused() {
    let mut s = store();
    assert!(try_start(&mut s, "boss", "Boss cast", 12, None, 1_000));
    assert_eq!(s.effects.len(), 1);
    assert_eq!(s.generation, 1);
    assert!(!try_start(&mut s, "late", "Late", 10, None, i64::MAX - 5));
    assert_eq!(s.effects.len(), 1);
    assert!(try_start(&mut s, "edge", "Edge", -3, None, i64::MAX));
    s.generation = u64::MAX;
    assert!(!try_start(&mut s, "more", "More", 1, None, 0));
    assert_eq!(s.effects.len(), 2);
}
