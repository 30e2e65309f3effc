use game_leaderboards::add;
use game_leaderboards::components::{Health, Position};
use game_leaderboards::systems::{CombatSystem, MovementSystem};

#[test]
fn test_movement_positive_delta() {
    let pos = Position(10, 20);
    let new_pos = MovementSystem::update_position(&pos, 5, 3);
    assert_eq!(new_pos, Position(15, 23));
}

#[test]
fn test_movement_negative_delta() {
    let pos = Position(10, 20);
    let new_pos = MovementSystem::update_position(&pos, -5, -3);
    assert_eq!(new_pos, Position(5, 17));
}

#[test]
fn test_movement_prevents_negative_coordinates() {
    let pos = Position(5, 5);
    let new_pos = MovementSystem::update_position(&pos, -10, -10);
    assert_eq!(new_pos, Position(0, 0));
}

#[test]
fn test_teleport() {
    let new_pos = MovementSystem::teleport(100, 200);
    assert_eq!(new_pos, Position(100, 200));
}

#[test]
fn test_manhattan_distance() {
    let pos1 = Position(0, 0);
    let pos2 = Position(3, 4);
    assert_eq!(MovementSystem::manhattan_distance(&pos1, &pos2), 7);

    let pos3 = Position(10, 10);
    let pos4 = Position(10, 10);
    assert_eq!(MovementSystem::manhattan_distance(&pos3, &pos4), 0);
}

#[test]
fn test_apply_damage() {
    let health = Health(100);
    let new_health = CombatSystem::apply_damage(&health, 30);
    assert_eq!(new_health, Health(70));
}

#[test]
fn test_apply_damage_prevents_underflow() {
    let health = Health(10);
    let new_health = CombatSystem::apply_damage(&health, 100);
    assert_eq!(new_health, Health(0));
}

#[test]
fn test_attack() {
    let health = Health(100);
    let new_health = CombatSystem::attack(&health);
    assert_eq!(new_health, Health(90));
}

#[test]
fn test_heal() {
    let health = Health(50);
    let new_health = CombatSystem::heal(&health, 30);
    assert_eq!(new_health, Health(80));
}

#[test]
fn test_heal_prevents_overflow() {
    let health = Health(u32::MAX - 10);
    let new_health = CombatSystem::heal(&health, 100);
    assert_eq!(new_health, Health(u32::MAX));
}

#[test]
fn test_is_alive() {
    assert!(CombatSystem::is_alive(&Health(1)));
    assert!(CombatSystem::is_alive(&Health(100)));
    assert!(!CombatSystem::is_alive(&Health(0)));
}

#[test]
fn test_is_dead() {
    assert!(CombatSystem::is_dead(&Health(0)));
    assert!(!CombatSystem::is_dead(&Health(1)));
    assert!(!CombatSystem::is_dead(&Health(100)));
}

#[test]
fn test_set_health() {
    let health = CombatSystem::set_health(75);
    assert_eq!(health, Health(75));
}

#[test]
fn test_combat_scenario() {
    // Initial health
    let mut health = Health(100);

    // Take damage
    health = CombatSystem::apply_damage(&health, 30);
    assert_eq!(health.0, 70);

    // Heal
    health = CombatSystem::heal(&health, 20);
    assert_eq!(health.0, 90);

    // Multiple attacks
    health = CombatSystem::attack(&health);
    health = CombatSystem::attack(&health);
    assert_eq!(health.0, 70);

    assert!(CombatSystem::is_alive(&health));
}

#[test]
fn it_works() {
    let result = add(2, 2);
    assert_eq!(result, 4);
}

#[test]
fn add_reaches_the_largest_number() {
    assert_eq!(add(u64::MAX - 1, 1), u64::MAX);
    assert_eq!(add(0, 0), 0);
}

#[test]
fn update_health_is_a_standard_attack() {
    assert_eq!(CombatSystem::update_health(&Health(100)), Health(90));
    assert_eq!(CombatSystem::update_health(&Health(4)), Health(0));
}

#[test]
fn movement_stops_at_the_largest_signed_coordinate() {
    let pos = Position(i32::MAX as u32, 7);
    assert_eq!(MovementSystem::update_position(&pos, 1, i32::MAX), Position(i32::MAX as u32, i32::MAX as u32));
}

#[test]
fn movement_reads_large_coordinates_as_negative() {
    let pos = Position(u32::MAX, 3_000_000_000);
    assert_eq!(MovementSystem::update_position(&pos, 5, 10), Position(4, 0));
    assert_eq!(MovementSystem::update_position(&pos, 1, i32::MAX), Position(0, 852_516_351));
}

#[test]
fn manhattan_distance_stops_at_the_largest_number() {
    let a = Position(0, 0);
    let b = Position(u32::MAX, 5);
    assert_eq!(MovementSystem::manhattan_distance(&a, &b), u32::MAX);
    assert_eq!(MovementSystem::manhattan_distance(&b, &a), u32::MAX);
    assert_eq!(MovementSystem::manhattan_distance(&Position(9, 2), &Position(4, 12)), 15);
}
