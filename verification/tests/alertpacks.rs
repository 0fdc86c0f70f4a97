use vellum_fe::config::alertpacks::split_pack_entries;
use vellum_fe::config::sparse::SettingValue;
use vellum_fe::config::alertpacks::{
    pack_from_file, pack_hash, sort_packs, AlertPack, AlertPackApprovals, AlertPackScope, RoomScope,
    ScopeParse,
};
use vellum_fe::config::highlights::{
    check_rule_put, put_rule, AlertSpec, HighlightPattern, RuleMap, RulePutError,
};
use vellum_fe::config::Config;
use vellum_fe::named::NamedMap;

fn rule(pattern: &str) -> HighlightPattern {
    HighlightPattern::with_pattern(pattern)
}

fn pack_with(rules: Vec<(&str, HighlightPattern)>) -> AlertPack {
    let mut map: RuleMap = NamedMap::new();
    for (n, r) in rules {
        map.insert(n.to_string(), r);
    }
    AlertPack {
        name: "testpack".to_string(),
        hash: "abc123".to_string(),
        rules: map,
        scope: AlertPackScope::default(),
    }
}

#[test]
fn hash_tracks_content_exactly() {
    assert_eq!(pack_hash(b"same"), pack_hash(b"same"));
    assert_ne!(pack_hash(b"one"), pack_hash(b"two"));
    assert_ne!(pack_hash(b"pattern = 'a'"), pack_hash(b"pattern = 'b'"));
}

#[test]
fn pack_hash_is_the_sha1_hex_digest() {
    assert_eq!(pack_hash(b"abc"), "a9993e364706816aba3e25717850c26c9cd0d89d");
}

#[test]
fn a_pack_of_alerts_and_colors_needs_no_approval() {
    let mut colored = rule("goblin");
    colored.fg = Some("#ff0000".to_string());
    let mut alerting = rule("stunned");
    alerting.alert = Some(AlertSpec {
        banner: Some("STUNNED".to_string()),
        ..Default::default()
    });
    let pack = pack_with(vec![("color", colored), ("alert", alerting)]);

    assert!(!pack.needs_approval(), "these powers cannot misrepresent output");
    assert!(pack.sensitive_rules().is_empty());
}

#[test]
fn replace_and_redirect_are_both_flagged() {
    let mut rewriter = rule("kobold");
    rewriter.replace = Some("KOBOLD".to_string());
    let mut router = rule("whisper");
    router.redirect_to = Some("thoughts".to_string());
    let pack = pack_with(vec![("rewrite", rewriter), ("route", router)]);

    assert!(pack.needs_approval());
    let digest = pack.sensitive_rules();
    assert_eq!(digest.len(), 2, "both powers listed");
    assert_eq!(digest[0].0, "rewrite");
    assert_eq!(digest[1].0, "route");
    assert!(digest[0].1.contains("rewrites"));
    assert!(digest[1].1.contains("reroutes"));
}

#[test]
fn digest_lines_quote_the_replacement_and_the_pattern() {
    let mut both = rule("kobold");
    both.replace = Some("KOBOLD".to_string());
    both.redirect_to = Some("combat".to_string());
    let pack = pack_with(vec![("both", both)]);
    let digest = pack.sensitive_rules();
    assert_eq!(
        digest,
        vec![
            (
                "both".to_string(),
                "reroutes matching lines to the \"combat\" window (pattern: \"kobold\")".to_string()
            ),
            (
                "both".to_string(),
                "rewrites matching text as \"KOBOLD\" (pattern: \"kobold\")".to_string()
            ),
        ]
    );
}

#[test]
fn unapproved_pack_keeps_alerts_but_loses_sensitive_powers() {
    let mut mixed = rule("kobold");
    mixed.fg = Some("#ff0000".to_string());
    mixed.replace = Some("KOBOLD".to_string());
    mixed.redirect_to = Some("combat".to_string());
    mixed.alert = Some(AlertSpec {
        banner: Some("KOBOLD".to_string()),
        ..Default::default()
    });
    let pack = pack_with(vec![("mixed", mixed)]);

    let effective = pack.effective_rules(false);
    let got = effective.get("mixed").expect("rule survives");
    assert!(got.replace.is_none(), "rewrite withheld");
    assert!(got.redirect_to.is_none(), "reroute withheld");
    assert_eq!(got.fg.as_deref(), Some("#ff0000"), "coloring still applies");
    assert!(got.alert.is_some(), "alert still fires");
}

#[test]
fn approved_pack_gets_its_full_powers() {
    let mut rewriter = rule("kobold");
    rewriter.replace = Some("KOBOLD".to_string());
    let pack = pack_with(vec![("rewrite", rewriter)]);

    let effective = pack.effective_rules(true);
    assert_eq!(
        effective.get("rewrite").expect("rule").replace.as_deref(),
        Some("KOBOLD")
    );
}

#[test]
fn approval_is_bound_to_one_exact_hash() {
    let mut approvals = AlertPackApprovals::default();
    approvals.approve("testpack", "abc123");
    assert!(approvals.is_approved("testpack", "abc123"));
    assert!(
        !approvals.is_approved("testpack", "def456"),
        "changed content must be re-reviewed"
    );
}

#[test]
fn revoking_re_arms_the_gate() {
    let mut approvals = AlertPackApprovals::default();
    approvals.approve("p", "h");
    approvals.revoke("p");
    assert!(!approvals.is_approved("p", "h"));
}

#[test]
fn re_approving_replaces_the_recorded_hash() {
    let mut approvals = AlertPackApprovals::default();
    approvals.approve("p", "old");
    approvals.approve("p", "new");
    assert!(approvals.is_approved("p", "new"));
    assert!(!approvals.is_approved("p", "old"));
    assert!(!approvals.is_approved("q", "new"));
}

#[test]
fn enabling_and_disabling_toggle_membership() {
    let mut approvals = AlertPackApprovals::default();
    assert!(!approvals.is_enabled("p"));
    approvals.set_enabled("p", true);
    assert!(approvals.is_enabled("p"));
    approvals.set_enabled("p", false);
    assert!(!approvals.is_enabled("p"));
}

#[test]
fn disabled_packs_contribute_nothing() {
    let pack = pack_with(vec![("r", rule("goblin"))]);
    let approvals = AlertPackApprovals::default();
    let mut highlights: RuleMap = NamedMap::new();
    Config::merge_alert_packs(&mut highlights, &[pack], &approvals, &RoomScope::default());
    assert_eq!(highlights.len(), 0, "installed is not the same as enabled");
}

#[test]
fn enabled_pack_rules_are_namespaced_and_never_clobber_personal_rules() {
    let pack = pack_with(vec![("stun", rule("packstun"))]);
    let mut approvals = AlertPackApprovals::default();
    approvals.set_enabled("testpack", true);

    let mut highlights: RuleMap = NamedMap::new();
    highlights.insert("stun".to_string(), rule("mystun"));

    Config::merge_alert_packs(&mut highlights, &[pack], &approvals, &RoomScope::default());

    assert_eq!(
        highlights.get("stun").expect("personal rule").pattern,
        "mystun",
        "a pack must never overwrite the user's own rule"
    );
    assert_eq!(
        highlights.get("pack:testpack/stun").expect("pack rule").pattern,
        "packstun"
    );
}

#[test]
fn two_packs_sharing_a_rule_name_coexist() {
    let mut a = pack_with(vec![("boss", rule("from-a"))]);
    a.name = "packa".to_string();
    let mut b = pack_with(vec![("boss", rule("from-b"))]);
    b.name = "packb".to_string();

    let mut approvals = AlertPackApprovals::default();
    approvals.set_enabled("packa", true);
    approvals.set_enabled("packb", true);

    let mut highlights: RuleMap = NamedMap::new();
    Config::merge_alert_packs(&mut highlights, &[a, b], &approvals, &RoomScope::default());
    assert_eq!(highlights.len(), 2, "namespacing keeps both");
}

fn reim() -> RoomScope {
    RoomScope {
        location: Some("the Settlement of Reim".to_string()),
        realm: Some(7),
        tags: vec!["bank".to_string()],
        uid: Some(12345),
    }
}

fn scoped(pack_name: &str, scope: AlertPackScope) -> AlertPack {
    let mut pack = pack_with(vec![("r", rule("goblin"))]);
    pack.name = pack_name.to_string();
    pack.scope = scope;
    pack
}

#[test]
fn an_unscoped_pack_is_armed_everywhere() {
    let scope = AlertPackScope::default();
    assert!(scope.is_unscoped());
    assert!(scope.admits(None, None, &[], None), "even with no room data");
    assert!(scope.admits(Some("anywhere"), Some(1), &["x".into()], Some(9)));
}

#[test]
fn area_scope_matches_the_location_case_insensitively() {
    let scope = AlertPackScope {
        area: vec!["The Settlement Of Reim".to_string()],
        ..Default::default()
    };
    assert!(scope.admits(Some("the Settlement of Reim"), None, &[], None));
    assert!(!scope.admits(Some("Wehnimer's Landing"), None, &[], None));
}

#[test]
fn zone_scope_works_without_any_mapdb_data() {
    let scope = AlertPackScope { zone: vec![7], ..Default::default() };
    assert!(scope.admits(None, Some(7), &[], None));
    assert!(!scope.admits(None, Some(8), &[], None));
}

#[test]
fn tag_scope_matches_any_shared_tag() {
    let scope = AlertPackScope {
        tags: vec!["bank".to_string()],
        ..Default::default()
    };
    assert!(scope.admits(None, None, &["shop".into(), "bank".into()], None));
    assert!(!scope.admits(None, None, &["shop".into()], None));
}

#[test]
fn room_scope_matches_an_exact_uid() {
    let scope = AlertPackScope { rooms: vec![42], ..Default::default() };
    assert!(scope.admits(None, None, &[], Some(42)));
    assert!(!scope.admits(None, None, &[], Some(43)));
}

#[test]
fn selectors_combine_as_or_so_any_one_match_arms_the_pack() {
    let scope = AlertPackScope {
        area: vec!["Nowhere".to_string()],
        rooms: vec![42],
        ..Default::default()
    };
    assert!(scope.admits(Some("Elsewhere"), None, &[], Some(42)));
    assert!(!scope.admits(Some("Elsewhere"), None, &[], Some(43)));
}

#[test]
fn a_scoped_pack_stays_closed_when_its_data_is_missing() {
    let scope = AlertPackScope {
        area: vec!["the Settlement of Reim".to_string()],
        ..Default::default()
    };
    assert!(!scope.admits(None, None, &[], None));
}

#[test]
fn out_of_area_packs_contribute_no_rules_at_all() {
    let pack = scoped(
        "reim",
        AlertPackScope {
            area: vec!["the Settlement of Reim".to_string()],
            ..Default::default()
        },
    );
    let mut approvals = AlertPackApprovals::default();
    approvals.set_enabled("reim", true);

    let mut inside: RuleMap = NamedMap::new();
    Config::merge_alert_packs(&mut inside, std::slice::from_ref(&pack), &approvals, &reim());
    assert_eq!(inside.len(), 1, "armed inside its area");

    let elsewhere = RoomScope {
        location: Some("Wehnimer's Landing".to_string()),
        ..Default::default()
    };
    let mut outside: RuleMap = NamedMap::new();
    Config::merge_alert_packs(&mut outside, &[pack], &approvals, &elsewhere);
    assert_eq!(outside.len(), 0, "disarmed outside its area");
}

#[test]
fn scoping_and_the_trust_gate_are_independent() {
    let mut rewriter = rule("kobold");
    rewriter.replace = Some("KOBOLD".to_string());
    let mut pack = pack_with(vec![("rewrite", rewriter)]);
    pack.scope = AlertPackScope { zone: vec![7], ..Default::default() };
    let mut approvals = AlertPackApprovals::default();
    approvals.set_enabled("testpack", true);

    let mut highlights: RuleMap = NamedMap::new();
    Config::merge_alert_packs(&mut highlights, &[pack], &approvals, &reim());
    assert!(
        highlights
            .get("pack:testpack/rewrite")
            .expect("in scope, so present")
            .replace
            .is_none(),
        "in scope does not imply approved"
    );
}

#[test]
fn an_unscoped_pack_survives_a_move_that_disarms_a_scoped_one() {
    let ambiance = scoped("ambiance", AlertPackScope::default());
    let encounter = scoped("reim", AlertPackScope { zone: vec![7], ..Default::default() });
    let mut approvals = AlertPackApprovals::default();
    approvals.set_enabled("ambiance", true);
    approvals.set_enabled("reim", true);

    let packs = [ambiance, encounter];
    let mut here: RuleMap = NamedMap::new();
    Config::merge_alert_packs(&mut here, &packs, &approvals, &reim());
    assert_eq!(here.len(), 2, "both armed in zone 7");

    let far = RoomScope { realm: Some(99), ..Default::default() };
    let mut there: RuleMap = NamedMap::new();
    Config::merge_alert_packs(&mut there, &packs, &approvals, &far);
    assert_eq!(there.len(), 1, "ambiance stays, encounter drops");
    assert!(there.contains_key("pack:ambiance/r"));
}

#[test]
fn merging_an_enabled_but_unapproved_pack_strips_sensitive_rules() {
    let mut rewriter = rule("kobold");
    rewriter.replace = Some("KOBOLD".to_string());
    let pack = pack_with(vec![("rewrite", rewriter)]);
    let mut approvals = AlertPackApprovals::default();
    approvals.set_enabled("testpack", true);

    let mut highlights: RuleMap = NamedMap::new();
    Config::merge_alert_packs(&mut highlights, &[pack], &approvals, &RoomScope::default());

    assert!(
        highlights
            .get("pack:testpack/rewrite")
            .expect("rule present")
            .replace
            .is_none(),
        "enabling alone must not grant sensitive powers"
    );
}

#[test]
fn merging_an_approved_pack_keeps_its_rewrite() {
    let mut rewriter = rule("kobold");
    rewriter.replace = Some("KOBOLD".to_string());
    let pack = pack_with(vec![("rewrite", rewriter)]);
    let mut approvals = AlertPackApprovals::default();
    approvals.set_enabled("testpack", true);
    approvals.approve("testpack", "abc123");

    let mut highlights: RuleMap = NamedMap::new();
    Config::merge_alert_packs(&mut highlights, &[pack], &approvals, &RoomScope::default());
    assert_eq!(
        highlights.get("pack:testpack/rewrite").expect("rule present").replace.as_deref(),
        Some("KOBOLD")
    );
}

#[test]
fn the_digest_counts_each_power_once_and_is_stable() {
    let mut both = rule("kobold");
    both.replace = Some("KOBOLD".to_string());
    both.redirect_to = Some("combat".to_string());
    let mut rewrite = rule("goblin");
    rewrite.replace = Some("GOBLIN".to_string());
    let pack = pack_with(vec![("b", both), ("a", rewrite), ("c", rule("plain"))]);
    let digest = pack.sensitive_rules();
    assert_eq!(digest.len(), 3);
    assert_eq!(digest[0].0, "a");
    assert_eq!(digest, pack.sensitive_rules());
}

fn some_rules() -> RuleMap {
    let mut map: RuleMap = NamedMap::new();
    map.insert("r".to_string(), rule("x"));
    map
}

#[test]
fn a_pack_file_gives_a_pack_named_and_hashed_after_it() {
    let bytes = b"[r]\npattern = \"x\"\n";
    let pack = pack_from_file("reim.toml", bytes, Some(some_rules()), ScopeParse::Absent).unwrap();
    assert_eq!(pack.name, "reim");
    assert_eq!(pack.hash, pack_hash(bytes));
    assert_eq!(pack.hash.len(), 40);
    assert!(pack.scope.is_unscoped());
    assert_eq!(pack.rules.len(), 1);
    let scope = AlertPackScope { area: vec!["Reim".to_string()], zone: vec![], tags: vec![], rooms: vec![] };
    let scoped = pack_from_file("reim.toml", bytes, Some(some_rules()), ScopeParse::Parsed(scope.clone())).unwrap();
    assert_eq!(scoped.scope, scope);
}

#[test]
fn a_bad_file_gives_no_pack() {
    assert!(pack_from_file("notes.txt", b"", Some(some_rules()), ScopeParse::Absent).is_none());
    assert!(pack_from_file(".toml", b"", Some(some_rules()), ScopeParse::Absent).is_none());
    assert!(pack_from_file("a.toml", b"", None, ScopeParse::Absent).is_none());
    assert!(pack_from_file("a.toml", b"", Some(some_rules()), ScopeParse::Malformed).is_none());
}

#[test]
fn packs_are_sorted_by_name() {
    let mut b = pack_with(vec![]);
    b.name = "beta".to_string();
    let mut a = pack_with(vec![]);
    a.name = "alpha".to_string();
    let mut c = pack_with(vec![]);
    c.name = "Gamma".to_string();
    let sorted = sort_packs(vec![b, a, c]);
    let names: Vec<&str> = sorted.iter().map(|p| p.name.as_str()).collect();
    assert_eq!(names, vec!["Gamma", "alpha", "beta"]);
}

#[test]
fn a_rule_put_needs_a_name_a_pattern_and_a_regex_that_compiles() {
    let mut rules: RuleMap = NamedMap::new();
    assert_eq!(check_rule_put("   ", &rule("dragon")), Err(RulePutError::MissingName));
    assert_eq!(check_rule_put("big", &rule("  ")), Err(RulePutError::MissingPattern));
    assert_eq!(check_rule_put("big", &rule("(unclosed")), Err(RulePutError::BadRegex));
    let mut literal = rule("(unclosed");
    literal.fast_parse = true;
    assert_eq!(check_rule_put(" big ", &literal), Ok("big".to_string()));

    assert_eq!(put_rule(&mut rules, "bad", rule("[z-a]")), Err(RulePutError::BadRegex));
    assert_eq!(rules.len(), 0);
    assert_eq!(put_rule(&mut rules, "  dragons ", rule("dragon(s)?")), Ok(()));
    assert_eq!(rules.len(), 1);
    assert!(rules.get("dragons").is_some());
}

#[test]
fn a_pack_file_parts_into_its_scope_and_its_rules() {
    let t = |k: &str, v: i64| (k.to_string(), SettingValue::Integer(v));
    let entries = vec![t("a", 1), t("__scope__", 2), t("b", 3), t("__scope__", 4)];
    let (scope, rest) = split_pack_entries(&entries);
    assert_eq!(scope, Some(SettingValue::Integer(2)));
    assert_eq!(rest, vec![t("a", 1), t("b", 3)]);
    let (scope, rest) = split_pack_entries(&vec![t("a", 1)]);
    assert_eq!(scope, None);
    assert_eq!(rest, vec![t("a", 1)]);
}
