use particle_sandbox::fixed::{Vec2, ONE};
use particle_sandbox::forces::{pair_force_of, MAX_PAIR_FORCE};
use particle_sandbox::rules::{
    Color, ColorProfile, ColorRule, ColorRuleTable, Interaction, RuleEntry,
};
use particle_sandbox::store::Particle;
use particle_sandbox::tick::{coord_after, integrate, speed_after, World};

fn table_with(kind: Interaction, strength: i32, radius: i32) -> ColorRuleTable {
    ColorRuleTable::new(
        vec![
            ColorProfile { mass: ONE, speed_cap: 100 * ONE },
            ColorProfile { mass: ONE, speed_cap: 100 * ONE },
        ],
        vec![RuleEntry {
            from: Color(0),
            to: Color(1),
            rule: ColorRule { kind, strength, radius },
        }],
    )
    .unwrap()
}

fn at(x: i32, y: i32, color: u8) -> Particle {
    Particle { position: Vec2 { x, y }, velocity: Vec2 { x: 0, y: 0 }, color: Color(color) }
}

#[test]
fn attraction_of_strength_one_at_distance_ten() {
    let table = table_with(Interaction::Attract, ONE, 20 * ONE);
    let p = at(10 * ONE, 10 * ONE, 0);
    let q = at(20 * ONE, 10 * ONE, 1);
    assert_eq!(pair_force_of(&table, p, q), (102, 0));
}

#[test]
fn repulsion_points_away() {
    let table = table_with(Interaction::Repel, ONE, 20 * ONE);
    let p = at(10 * ONE, 10 * ONE, 0);
    let q = at(20 * ONE, 10 * ONE, 1);
    assert_eq!(pair_force_of(&table, p, q), (-102, 0));
}

#[test]
fn negative_strength_turns_the_force_round() {
    let attract = table_with(Interaction::Attract, -ONE, 20 * ONE);
    let repel = table_with(Interaction::Repel, -ONE, 20 * ONE);
    let p = at(10 * ONE, 10 * ONE, 0);
    let q = at(10 * ONE, 20 * ONE, 1);
    assert_eq!(pair_force_of(&attract, p, q), (0, -102));
    assert_eq!(pair_force_of(&repel, p, q), (0, 102));
}

#[test]
fn force_lies_along_the_line_to_the_neighbor() {
    let table = table_with(Interaction::Attract, ONE, 20 * ONE);
    let p = at(0, 0, 0);
    assert_eq!(pair_force_of(&table, p, at(3 * ONE, 4 * ONE, 1)), (122, 163));
    assert_eq!(pair_force_of(&table, p, at(-3 * ONE, 4 * ONE, 1)), (-122, 163));
    assert_eq!(pair_force_of(&table, p, at(-3 * ONE, -4 * ONE, 1)), (-122, -163));
}

#[test]
fn force_falls_with_the_distance() {
    let table = table_with(Interaction::Attract, ONE, 100 * ONE);
    let p = at(0, 0, 0);
    assert_eq!(pair_force_of(&table, p, at(ONE, 0, 1)), (1024, 0));
    assert_eq!(pair_force_of(&table, p, at(2 * ONE, 0, 1)), (512, 0));
    assert_eq!(pair_force_of(&table, p, at(4 * ONE, 0, 1)), (256, 0));
    assert_eq!(pair_force_of(&table, p, at(100 * ONE, 0, 1)), (10, 0));
}

#[test]
fn no_force_beyond_the_radius() {
    let table = table_with(Interaction::Attract, ONE, 10 * ONE);
    let p = at(0, 0, 0);
    assert_eq!(pair_force_of(&table, p, at(10 * ONE, 0, 1)), (102, 0));
    assert_eq!(pair_force_of(&table, p, at(10 * ONE + 1, 0, 1)), (0, 0));
}

#[test]
fn no_force_between_particles_in_one_place() {
    let table = table_with(Interaction::Attract, ONE, 10 * ONE);
    assert_eq!(pair_force_of(&table, at(5, 5, 0), at(5, 5, 1)), (0, 0));
}

#[test]
fn no_force_without_a_rule_of_force() {
    let p = at(0, 0, 0);
    let q = at(ONE, 0, 1);
    assert_eq!(pair_force_of(&table_with(Interaction::Neutral, ONE, 10 * ONE), p, q), (0, 0));
    assert_eq!(pair_force_of(&table_with(Interaction::Delete, ONE, 10 * ONE), p, q), (0, 0));
    let spawn = table_with(Interaction::Spawn(Color(1)), ONE, 10 * ONE);
    assert_eq!(pair_force_of(&spawn, p, q), (0, 0));
    let attract = table_with(Interaction::Attract, ONE, 10 * ONE);
    assert_eq!(pair_force_of(&attract, q, p), (0, 0));
}

#[test]
fn the_strongest_force_is_bounded() {
    let table = table_with(Interaction::Attract, i32::MAX, i32::MAX);
    let p = at(0, 0, 0);
    let f = pair_force_of(&table, p, at(1, 0, 1));
    assert_eq!(f, (i32::MAX as i128 * 1024, 0));
    assert!(f.0 <= MAX_PAIR_FORCE);
    let weak = table_with(Interaction::Attract, i32::MIN, i32::MAX);
    assert_eq!(pair_force_of(&weak, p, at(0, -1, 1)), (0, MAX_PAIR_FORCE));
}

#[test]
fn velocity_grows_by_force_times_step_over_mass() {
    assert_eq!(speed_after(0, 102, ONE, 100 * ONE, ONE), 102);
    assert_eq!(speed_after(10, 102, 2 * ONE, 100 * ONE, ONE), 61);
    assert_eq!(speed_after(10, -102, 2 * ONE, 100 * ONE, ONE), -41);
    assert_eq!(speed_after(0, 102, ONE, 100 * ONE, ONE / 2), 51);
    assert_eq!(speed_after(0, 103, ONE, 100 * ONE, ONE / 2), 51);
    assert_eq!(speed_after(0, -103, ONE, 100 * ONE, ONE / 2), -51);
}

#[test]
fn velocity_is_limited_to_the_speed_cap() {
    assert_eq!(speed_after(0, 102, ONE, 50, ONE), 50);
    assert_eq!(speed_after(0, -102, ONE, 50, ONE), -50);
    assert_eq!(speed_after(70, 0, ONE, 50, ONE), 50);
    assert_eq!(speed_after(-70, 0, ONE, 50, ONE), -50);
    assert_eq!(speed_after(70, 0, ONE, 0, ONE), 0);
}

#[test]
fn a_huge_force_drives_the_velocity_to_the_cap() {
    assert_eq!(speed_after(i32::MIN, i128::MAX, i32::MAX, i32::MAX, 1), i32::MAX);
    assert_eq!(speed_after(i32::MAX, i128::MIN, i32::MAX, i32::MAX, 1), -i32::MAX);
    assert_eq!(speed_after(0, i128::MAX, 1, 5, i32::MAX), 5);
    assert_eq!(speed_after(0, (1i128 << 64) + 1, i32::MAX, i32::MAX, 1), i32::MAX);
    assert_eq!(speed_after(0, 1i128 << 64, i32::MAX, i32::MAX, 1), i32::MAX);
    assert_eq!(speed_after(0, 1i128 << 40, 1 << 20, i32::MAX, 1), 1 << 20);
}

#[test]
fn position_grows_by_velocity_times_step() {
    assert_eq!(coord_after(1000, 30, ONE, 5000), 1030);
    assert_eq!(coord_after(1000, -30, ONE, 5000), 970);
    assert_eq!(coord_after(1000, 101, ONE / 2, 5000), 1050);
    assert_eq!(coord_after(1000, -101, ONE / 2, 5000), 950);
    assert_eq!(coord_after(1000, 30, 3 * ONE, 5000), 1090);
    assert_eq!(coord_after(1000, 1, 1, 5000), 1000);
}

#[test]
fn position_is_limited_to_the_world() {
    assert_eq!(coord_after(100, -500, ONE, 5000), 0);
    assert_eq!(coord_after(4900, 500, ONE, 5000), 5000);
    assert_eq!(coord_after(-70, 0, ONE, 5000), 0);
    assert_eq!(coord_after(9000, 0, ONE, 5000), 5000);
    assert_eq!(coord_after(i32::MAX, i32::MAX, i32::MAX, i32::MAX), i32::MAX);
    assert_eq!(coord_after(i32::MIN, i32::MIN, i32::MAX, 0), 0);
}

#[test]
fn integration_uses_the_new_velocity() {
    let world = World { width: 100 * ONE, height: 100 * ONE, dt: ONE };
    let p = Particle {
        position: Vec2 { x: 1000, y: 2000 },
        velocity: Vec2 { x: 10, y: -10 },
        color: Color(3),
    };
    let moved = integrate(p, 100, -200, ColorProfile { mass: ONE, speed_cap: 150 }, world);
    assert_eq!(
        moved,
        Particle {
            position: Vec2 { x: 1110, y: 1850 },
            velocity: Vec2 { x: 110, y: -150 },
            color: Color(3),
        }
    );
}
