use particle_sandbox::fixed::ONE;
use particle_sandbox::rules::{
    Color, ColorProfile, ColorRule, ColorRuleTable, ConfigError, Interaction, RuleEntry,
    MAX_COLORS,
};

fn profile(mass: i32, speed_cap: i32) -> ColorProfile {
    ColorProfile { mass, speed_cap }
}

fn entry(from: u8, to: u8, kind: Interaction, strength: i32, radius: i32) -> RuleEntry {
    RuleEntry { from: Color(from), to: Color(to), rule: ColorRule { kind, strength, radius } }
}

fn neutral() -> ColorRule {
    ColorRule { kind: Interaction::Neutral, strength: 0, radius: 0 }
}

#[test]
fn empty_configuration_is_accepted() {
    let table = ColorRuleTable::new(Vec::new(), Vec::new()).unwrap();
    assert_eq!(table.num_colors(), 0);
    assert_eq!(table.max_radius(), 0);
    assert_eq!(table.rule_for(Color(0), Color(0)), neutral());
    assert_eq!(table.profile_for(Color(0)), profile(ONE, 0));
}

#[test]
fn rules_are_stored_per_ordered_pair() {
    let table = ColorRuleTable::new(
        vec![profile(ONE, 10), profile(2 * ONE, 20)],
        vec![
            entry(0, 1, Interaction::Attract, 5, 100),
            entry(1, 0, Interaction::Repel, -7, 300),
        ],
    )
    .unwrap();
    assert_eq!(
        table.rule_for(Color(0), Color(1)),
        ColorRule { kind: Interaction::Attract, strength: 5, radius: 100 }
    );
    assert_eq!(
        table.rule_for(Color(1), Color(0)),
        ColorRule { kind: Interaction::Repel, strength: -7, radius: 300 }
    );
    assert_eq!(table.rule_for(Color(0), Color(0)), neutral());
    assert_eq!(table.rule_for(Color(1), Color(1)), neutral());
    assert_eq!(table.max_radius(), 300);
    assert_eq!(table.num_colors(), 2);
}

#[test]
fn lookups_outside_the_table_are_neutral() {
    let table = ColorRuleTable::new(
        vec![profile(3 * ONE, 10)],
        vec![entry(0, 0, Interaction::Attract, 5, 100)],
    )
    .unwrap();
    assert_eq!(table.rule_for(Color(0), Color(1)), neutral());
    assert_eq!(table.rule_for(Color(31), Color(0)), neutral());
    assert_eq!(table.rule_for(Color(32), Color(0)), neutral());
    assert_eq!(table.rule_for(Color(255), Color(255)), neutral());
    assert_eq!(table.profile_for(Color(0)), profile(3 * ONE, 10));
    assert_eq!(table.profile_for(Color(1)), profile(ONE, 0));
    assert_eq!(table.profile_for(Color(255)), profile(ONE, 0));
}

#[test]
fn too_many_colors_are_rejected() {
    let mut profiles = Vec::new();
    for _ in 0..MAX_COLORS {
        profiles.push(profile(ONE, 0));
    }
    assert!(ColorRuleTable::new(profiles.clone(), Vec::new()).is_ok());
    profiles.push(profile(ONE, 0));
    assert_eq!(ColorRuleTable::new(profiles, Vec::new()).err(), Some(ConfigError::TooManyColors));
}

#[test]
fn zero_mass_is_rejected() {
    let r = ColorRuleTable::new(vec![profile(ONE, 0), profile(0, 0)], Vec::new());
    assert_eq!(r.err(), Some(ConfigError::NonPositiveMass));
}

#[test]
fn negative_mass_is_rejected() {
    let r = ColorRuleTable::new(vec![profile(-1, 0)], Vec::new());
    assert_eq!(r.err(), Some(ConfigError::NonPositiveMass));
}

#[test]
fn negative_speed_cap_is_rejected() {
    let r = ColorRuleTable::new(vec![profile(ONE, -1)], Vec::new());
    assert_eq!(r.err(), Some(ConfigError::NegativeSpeedCap));
}

#[test]
fn zero_speed_cap_is_accepted() {
    assert!(ColorRuleTable::new(vec![profile(1, 0)], Vec::new()).is_ok());
}

#[test]
fn rule_from_an_undefined_color_is_rejected() {
    let r = ColorRuleTable::new(
        vec![profile(ONE, 0)],
        vec![entry(1, 0, Interaction::Attract, 1, 1)],
    );
    assert_eq!(r.err(), Some(ConfigError::UndefinedColor));
}

#[test]
fn rule_about_an_undefined_color_is_rejected() {
    let r = ColorRuleTable::new(
        vec![profile(ONE, 0)],
        vec![entry(0, 1, Interaction::Attract, 1, 1)],
    );
    assert_eq!(r.err(), Some(ConfigError::UndefinedColor));
}

#[test]
fn spawn_of_an_undefined_color_is_rejected() {
    let r = ColorRuleTable::new(
        vec![profile(ONE, 0)],
        vec![entry(0, 0, Interaction::Spawn(Color(1)), 0, 1)],
    );
    assert_eq!(r.err(), Some(ConfigError::UndefinedColor));
}

#[test]
fn negative_radius_is_rejected() {
    let r = ColorRuleTable::new(
        vec![profile(ONE, 0)],
        vec![entry(0, 0, Interaction::Attract, 1, -1)],
    );
    assert_eq!(r.err(), Some(ConfigError::NegativeRadius));
}

#[test]
fn second_rule_for_a_pair_is_rejected() {
    let r = ColorRuleTable::new(
        vec![profile(ONE, 0), profile(ONE, 0)],
        vec![
            entry(0, 1, Interaction::Attract, 1, 1),
            entry(1, 0, Interaction::Attract, 1, 1),
            entry(0, 1, Interaction::Repel, 2, 2),
        ],
    );
    assert_eq!(r.err(), Some(ConfigError::DuplicateRule));
}

#[test]
fn the_first_error_is_reported() {
    let r = ColorRuleTable::new(
        vec![profile(ONE, -1), profile(0, 0)],
        vec![entry(9, 9, Interaction::Attract, 1, -1)],
    );
    assert_eq!(r.err(), Some(ConfigError::NegativeSpeedCap));
    let r = ColorRuleTable::new(
        vec![profile(ONE, 1)],
        vec![
            entry(0, 0, Interaction::Attract, 1, -1),
            entry(0, 9, Interaction::Attract, 1, 1),
        ],
    );
    assert_eq!(r.err(), Some(ConfigError::NegativeRadius));
    let r = ColorRuleTable::new(
        vec![profile(ONE, 1)],
        vec![
            entry(0, 0, Interaction::Attract, 1, 1),
            entry(0, 0, Interaction::Attract, 1, -1),
        ],
    );
    assert_eq!(r.err(), Some(ConfigError::NegativeRadius));
}

#[test]
fn profiles_come_before_rules() {
    let r = ColorRuleTable::new(
        vec![profile(0, 0)],
        vec![entry(5, 5, Interaction::Attract, 1, 1)],
    );
    assert_eq!(r.err(), Some(ConfigError::NonPositiveMass));
}

#[test]
fn negative_strength_is_accepted() {
    let table = ColorRuleTable::new(
        vec![profile(ONE, 0)],
        vec![entry(0, 0, Interaction::Attract, i32::MIN, i32::MAX)],
    )
    .unwrap();
    assert_eq!(table.rule_for(Color(0), Color(0)).strength, i32::MIN);
    assert_eq!(table.max_radius(), i32::MAX);
}
