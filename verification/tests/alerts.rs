use vellum_fe::alerts::{AlertState, AlertTrigger, DEFAULT_COOLDOWN_MS, MAX_CONCURRENT};
use vellum_fe::config::highlights::AlertSpec;

fn spec(banner: &str) -> AlertSpec {
    AlertSpec { banner: Some(banner.to_string()), ..Default::default() }
}

fn trigger(key: &str, spec: AlertSpec) -> AlertTrigger {
    AlertTrigger { key: key.to_string(), banner: spec.banner.clone(), spec }
}

const T0: u64 = 1_000_000;

#[test]
fn cooldown_blocks_repeat_fires_of_one_rule() {
    let mut state = AlertState::new();
    assert!(state.fire(trigger("stun", spec("Stunned!")), T0));
    // Same rule, immediately after: the heavy-scroll case.
    assert!(!state.fire(trigger("stun", spec("Stunned!")), T0));
    assert_eq!(state.active().len(), 1);

    // Past the cooldown it may fire again.
    let later = T0 + DEFAULT_COOLDOWN_MS + 100;
    assert!(state.fire(trigger("stun", spec("Stunned!")), later));
    assert_eq!(state.active().len(), 2);
}

#[test]
fn authored_cooldown_overrides_default() {
    let mut state = AlertState::new();
    let mut s = spec("ping");
    s.cooldown_ms = Some(0);
    assert!(state.fire(trigger("r", s.clone()), T0));
    // Zero cooldown means every line may fire.
    assert!(state.fire(trigger("r", s), T0));
}

#[test]
fn distinct_rules_do_not_share_a_cooldown() {
    let mut state = AlertState::new();
    assert!(state.fire(trigger("a", spec("A")), T0));
    assert!(state.fire(trigger("b", spec("B")), T0));
    assert_eq!(state.active().len(), 2);
}

#[test]
fn concurrent_cap_evicts_oldest() {
    let mut state = AlertState::new();
    for i in 0..(MAX_CONCURRENT + 3) {
        let mut s = spec(&format!("alert {i}"));
        s.cooldown_ms = Some(0);
        s.duration_ms = Some(60_000); // outlive the test
        state.fire(trigger(&format!("rule{i}"), s), T0);
    }
    assert_eq!(state.active().len(), MAX_CONCURRENT);
    // The survivors are the newest ones.
    assert_eq!(state.active()[0].key, "rule3");
    assert_eq!(
        state.active().last().expect("non-empty").key,
        format!("rule{}", MAX_CONCURRENT + 2)
    );
}

#[test]
fn tick_expires_by_duration() {
    let mut state = AlertState::new();
    let mut s = spec("brief");
    s.duration_ms = Some(1_000);
    state.fire(trigger("x", s), T0);
    assert_eq!(state.active().len(), 1);

    state.tick(T0 + 500);
    assert_eq!(state.active().len(), 1, "still within duration");

    state.tick(T0 + 1_100);
    assert!(state.is_empty(), "expired after its duration");
}

#[test]
fn kill_switch_blocks_and_clears() {
    let mut state = AlertState::new();
    state.fire(trigger("x", spec("visible")), T0);
    assert_eq!(state.active().len(), 1);

    state.set_enabled(false);
    assert!(state.is_empty(), "kill switch clears what is on screen");
    assert!(!state.fire(trigger("y", spec("blocked")), T0));
}

#[test]
fn presentation_less_alert_is_rejected() {
    let mut state = AlertState::new();
    // No banner, no art, no flash: nothing to draw.
    let inert = AlertSpec { id: Some("inert".into()), ..Default::default() };
    assert!(!state.fire(trigger("inert", inert), T0));
    assert!(state.is_empty());
}

#[test]
fn a_short_duration_is_raised_to_the_minimum_and_a_clock_step_back_counts_as_no_time() {
    let mut state = AlertState::new();
    let mut s = spec("blink");
    s.duration_ms = Some(10);
    assert!(state.fire(trigger("b", s), T0));
    assert_eq!(state.active()[0].duration_ms, 100);
    assert_eq!(state.active()[0].priority, 0);
    // An earlier reading than the last fire is still within the cooldown.
    assert!(!state.fire(trigger("b", spec("blink")), T0 - 10_000));
    state.clear();
    assert!(state.is_empty());
    assert!(!state.fire(trigger("b", spec("blink")), T0 + 10));
}

#[test]
fn many_stale_cooldown_records_are_dropped_on_tick() {
    let mut long = spec("long");
    long.cooldown_ms = Some(1_000_000);
    // Few records: a tick keeps them, so the long cooldown still blocks.
    let mut few = AlertState::new();
    assert!(few.fire(trigger("long", long.clone()), T0));
    few.tick(T0 + 400_000);
    assert!(!few.fire(trigger("long", long.clone()), T0 + 400_001));
    // Past sixty-four records, those older than five minutes are dropped.
    let mut many = AlertState::new();
    assert!(many.fire(trigger("long", long.clone()), T0));
    for i in 0..70u64 {
        many.fire(trigger(&format!("rule{i}"), spec("x")), T0 + i);
    }
    many.tick(T0 + 400_000);
    assert!(many.is_empty());
    assert!(many.fire(trigger("long", long), T0 + 400_001));
}
