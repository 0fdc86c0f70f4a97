use vellum_fe::config::window_registry::WindowRegistry;

#[test]
fn record_dedups_on_kind_and_id_and_refreshes_title() {
    let mut registry = WindowRegistry::default();
    assert!(registry.record("stream", "bounty", "Bounty"));
    assert!(!registry.record("stream", "bounty", "Bounty"), "no change");
    // Same id under a different kind is a different binding.
    assert!(registry.record("dialog", "bounty", "Bounty Dialog"));
    // A better title refreshes in place, no duplicate row.
    assert!(registry.record("stream", "bounty", "Adventurer's Guild"));
    assert_eq!(
        registry
            .bindings
            .iter()
            .filter(|b| b.kind == "stream" && b.id == "bounty")
            .count(),
        1
    );
    // Empty sightings never register or clobber.
    assert!(!registry.record("stream", "", "x"));
    assert!(!registry.record("stream", "bounty", ""));
    assert_eq!(
        registry
            .bindings
            .iter()
            .find(|b| b.kind == "stream" && b.id == "bounty")
            .unwrap()
            .title,
        "Adventurer's Guild"
    );
}

#[test]
fn seed_is_idempotent_and_respects_seen_titles() {
    let mut registry = WindowRegistry::default();
    assert!(registry.record("stream", "bounty", "Adventurer's Guild"));
    assert!(registry.seed_well_known());
    let count = registry.bindings.len();
    assert!(!registry.seed_well_known(), "second seed is a no-op");
    assert_eq!(registry.bindings.len(), count);
    assert_eq!(
        registry
            .bindings
            .iter()
            .find(|b| b.kind == "stream" && b.id == "bounty")
            .unwrap()
            .title,
        "Adventurer's Guild",
        "seed never overwrites a game-declared title"
    );
}

#[test]
fn seeding_an_empty_registry_adds_every_well_known_feed_in_order() {
    let mut registry = WindowRegistry::default();
    assert!(registry.seed_well_known());
    assert_eq!(registry.bindings.len(), 28);
    assert_eq!(registry.bindings[0].kind, "stream");
    assert_eq!(registry.bindings[0].id, "thoughts");
    assert_eq!(registry.bindings[0].title, "Thoughts");
    assert_eq!(registry.bindings[16].id, "IconBAR");
    assert_eq!(registry.bindings[16].title, "Status");
    assert_eq!(registry.bindings[27].kind, "dialog");
    assert_eq!(registry.bindings[27].id, "befriend");
}

#[test]
fn a_seen_binding_keeps_its_place_when_seeding() {
    let mut registry = WindowRegistry::default();
    registry.record("dialog", "custom", "Custom");
    registry.seed_well_known();
    assert_eq!(registry.bindings[0].id, "custom");
    assert_eq!(registry.bindings.len(), 29);
}

#[test]
fn identity_is_case_sensitive() {
    let mut registry = WindowRegistry::default();
    assert!(registry.record("stream", "Spells", "Spells"));
    assert!(registry.record("stream", "spells", "spells"));
    assert_eq!(registry.bindings.len(), 2);
}
