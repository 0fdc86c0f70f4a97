use vellum_fe::bounty_parser::{compact_from_matches, parse_bounty, BountyMatches};
use vellum_fe::regex_match::Captures;

#[test]
fn test_culling_task() {
    let text = "You have been tasked to suppress triton fanatic activity in the Atoll near Kraken's Fall. You need to kill 15 of them to complete your task.";
    let result = parse_bounty(text).unwrap();
    assert_eq!(result.lines[0], "Culling Task");
    assert_eq!(result.lines[1], "15 triton fanatic");
    assert!(result.lines[2].contains("Atoll"));
}

#[test]
fn test_no_task() {
    let text = "You are not currently assigned a task.";
    let result = parse_bounty(text).unwrap();
    assert_eq!(result.lines[0], "No task currently");
}

#[test]
fn test_turn_in() {
    let text = "You have succeeded in your task and can return to the Adventurer's Guild to receive your reward.";
    let result = parse_bounty(text).unwrap();
    assert_eq!(result.lines[0], "Turn in task at AG");
}

#[test]
fn test_skinning_task() {
    let text = "You have been tasked to retrieve 3 troll skins of at least exceptional quality for the furrier.  You can SKIN them off the corpse of a forest troll or buy them.";
    let result = parse_bounty(text).unwrap();
    assert_eq!(result.lines[0], "Skinning Task");
    assert!(result.lines[1].contains("3"));
    assert!(result.lines[1].contains("troll skins"));
}

#[test]
fn test_dangerous_creature() {
    let text = "You have been tasked to hunt down and kill a particularly dangerous fire giant that has established a territory in the Red Forest. You can track the beast down using the TRACK command.";
    let result = parse_bounty(text).unwrap();
    assert_eq!(result.lines[0], "Dangerous Creature Task");
    assert!(result.lines[1].contains("fire giant"));
}

#[test]
fn test_longname_shortening() {
    let text = "You have been tasked to suppress athletic dark-eyed incubus activity in the Rift. You need to kill 10 of them to complete your task.";
    let result = parse_bounty(text).unwrap();
    assert!(result.lines[1].contains("dark-eyed incubus"));
    assert!(!result.lines[1].contains("athletic"));
}

#[test]
fn test_unknown_bounty_returns_none() {
    let text = "This is just some random text that doesn't match any bounty pattern.";
    assert!(parse_bounty(text).is_none());
}

#[test]
fn test_visit_furrier() {
    let text = "The local furrier Jarvis has an order to fill and wants our help.  Head over there and see what you can do.";
    let result = parse_bounty(text).unwrap();
    assert_eq!(result.lines[0], "Visit Furrier");
    assert_eq!(result.lines[1], "Skinning Bounty");
}

#[test]
fn skinning_line_cuts_quality_to_four_bytes() {
    let text = "You have been tasked to retrieve 3 troll skins of at least exceptional quality for the furrier.  You can SKIN them off the corpse of a forest troll or buy them.";
    let result = parse_bounty(text).unwrap();
    assert_eq!(result.lines, vec!["Skinning Task", "3 troll skins (exce)", "forest troll"]);
}

#[test]
fn newlines_are_normalised_before_matching() {
    let text = "You are not currently\nassigned a task.";
    let result = parse_bounty(text).unwrap();
    assert_eq!(result.lines, vec!["No task currently"]);
}

#[test]
fn help_bandit_names_the_guard() {
    let text = "It appears the guard would like to see you in order to help Bob take care of a bandit problem.";
    let result = parse_bounty(text).unwrap();
    assert_eq!(result.lines, vec!["Visit Guard", "Help Bob", "Bandits"]);
}

#[test]
fn forager_visit_capitalizes_the_person() {
    let text = "The local healer, Maren, has asked for our aid.  Head over there and see what you can do.";
    let result = parse_bounty(text).unwrap();
    assert_eq!(result.lines, vec!["Visit Healer", "Foraging Bounty"]);
}

#[test]
fn the_longer_of_two_overlapping_long_names_wins() {
    let text = "You have been tasked to suppress writhing frost-glazed vine activity in the Rift. You need to kill 4 of them to complete your task.";
    let result = parse_bounty(text).unwrap();
    assert_eq!(result.lines[1], "4 frost-glazed vine");
}

#[test]
fn decision_goes_to_the_first_pattern_that_matched() {
    let mut found: Vec<Option<Captures>> = (0..25).map(|_| None).collect();
    found[12] = Some(Captures { groups: vec![] });
    found[20] = Some(Captures { groups: vec![] });
    let m = BountyMatches { found };
    assert!(m.is_well_formed());
    let r = compact_from_matches(&m).unwrap();
    assert_eq!(r.lines, vec!["Turn in task at AG"]);
}

#[test]
fn a_match_missing_a_group_is_not_well_formed() {
    let mut found: Vec<Option<Captures>> = (0..25).map(|_| None).collect();
    found[2] = Some(Captures { groups: vec![("count".to_string(), Some("4".to_string()))] });
    let m = BountyMatches { found };
    assert!(!m.is_well_formed());
}
