use shooting_game::collision::{bullet_enemy_collision, touching};
use shooting_game::entity::{Body, EntityStore};
use shooting_game::units::{HIT_RADIUS, HIT_SCORE, UNIT};

fn at(x: i64, y: i64) -> Body {
    Body { id: 0, x, y, speed: 1 }
}

#[test]
fn bodies_closer_than_the_radius_touch() {
    assert!(touching(&at(0, 100 * UNIT), &at(0, 105 * UNIT)));
    assert!(touching(&at(0, 0), &at(0, 0)));
    assert!(touching(&at(12 * UNIT, 0), &at(0, 15 * UNIT)));
}

#[test]
fn the_radius_itself_is_out_of_reach() {
    assert_eq!(HIT_RADIUS, 20 * UNIT);
    assert!(!touching(&at(0, 0), &at(HIT_RADIUS, 0)));
    assert!(touching(&at(0, 0), &at(HIT_RADIUS - 1, 0)));
    assert!(!touching(&at(0, 0), &at(0, -HIT_RADIUS)));
    assert!(touching(&at(0, 0), &at(0, 1 - HIT_RADIUS)));
    // 12, 16, 20 is a right triangle.
    assert!(!touching(&at(0, 0), &at(12 * UNIT, 16 * UNIT)));
    assert!(touching(&at(0, 0), &at(12 * UNIT, 16 * UNIT - 1)));
}

#[test]
fn reach_does_not_depend_on_the_order() {
    let a = at(-3 * UNIT, 7 * UNIT);
    let b = at(10 * UNIT, -5 * UNIT);
    assert_eq!(touching(&a, &b), touching(&b, &a));
    assert!(touching(&a, &b));
}

#[test]
fn far_corners_are_out_of_reach() {
    assert!(!touching(&at(i64::MIN, i64::MIN), &at(i64::MAX, i64::MAX)));
    assert!(!touching(&at(i64::MAX, 0), &at(i64::MIN, 0)));
    assert!(touching(&at(i64::MAX, i64::MIN), &at(i64::MAX - 5, i64::MIN + 5)));
}

#[test]
fn bullet_and_enemy_in_reach_are_both_destroyed() {
    let mut store = EntityStore::new();
    let bullet = store.create_bullet(0, 100 * UNIT, 500);
    let enemy = store.create_enemy(0, 105 * UNIT, 100);
    let mut score = 0;
    bullet_enemy_collision(&mut store, &mut score);
    assert_eq!(score, 10);
    assert_eq!(store.find(bullet), None);
    assert_eq!(store.find(enemy), None);
    assert!(store.bullets().is_empty());
    assert!(store.enemies().is_empty());
}

#[test]
fn entities_out_of_reach_stay() {
    let mut store = EntityStore::new();
    let bullet = store.create_bullet(0, 0, 500);
    let enemy = store.create_enemy(0, 20 * UNIT, 100);
    let mut score = 30;
    bullet_enemy_collision(&mut store, &mut score);
    assert_eq!(score, 30);
    assert!(store.find(bullet).is_some());
    assert!(store.find(enemy).is_some());
}

#[test]
fn every_pair_in_reach_scores_once() {
    let mut store = EntityStore::new();
    store.create_bullet(0, 0, 500);
    store.create_bullet(100 * UNIT, 0, 500);
    let spared = store.create_bullet(200 * UNIT, 0, 500);
    store.create_enemy(100 * UNIT, 5 * UNIT, 100);
    let missed = store.create_enemy(-100 * UNIT, 0, 100);
    store.create_enemy(3 * UNIT, -4 * UNIT, 100);
    let mut score = 50;
    bullet_enemy_collision(&mut store, &mut score);
    assert_eq!(score, 50 + 2 * HIT_SCORE);
    assert_eq!(store.bullets().len(), 1);
    assert_eq!(store.bullets()[0].id, spared);
    assert_eq!(store.enemies().len(), 1);
    assert_eq!(store.enemies()[0].id, missed);
}

#[test]
fn bullet_near_two_enemies_scores_once() {
    let mut store = EntityStore::new();
    let bullet = store.create_bullet(0, 0, 500);
    let first = store.create_enemy(5 * UNIT, 0, 100);
    let second = store.create_enemy(-5 * UNIT, 0, 100);
    let mut score = 0;
    bullet_enemy_collision(&mut store, &mut score);
    assert_eq!(score, HIT_SCORE);
    assert_eq!(store.find(bullet), None);
    assert_eq!(store.find(first), None);
    assert!(store.find(second).is_some());
}

#[test]
fn enemy_near_two_bullets_scores_once() {
    let mut store = EntityStore::new();
    let first = store.create_bullet(5 * UNIT, 0, 500);
    let second = store.create_bullet(-5 * UNIT, 0, 500);
    let enemy = store.create_enemy(0, 0, 100);
    let mut score = 0;
    bullet_enemy_collision(&mut store, &mut score);
    assert_eq!(score, HIT_SCORE);
    assert_eq!(store.find(first), None);
    assert!(store.find(second).is_some());
    assert_eq!(store.find(enemy), None);
}

#[test]
fn second_bullet_takes_the_enemy_that_the_first_left() {
    let mut store = EntityStore::new();
    store.create_bullet(0, 0, 500);
    store.create_bullet(1 * UNIT, 0, 500);
    store.create_enemy(2 * UNIT, 0, 100);
    store.create_enemy(3 * UNIT, 0, 100);
    let mut score = 0;
    bullet_enemy_collision(&mut store, &mut score);
    assert_eq!(score, 2 * HIT_SCORE);
    assert!(store.bullets().is_empty());
    assert!(store.enemies().is_empty());
}

#[test]
fn collision_leaves_the_player_alone() {
    let mut store = EntityStore::new();
    let player = store
        .create_player(
            0,
            0,
            300,
            shooting_game::timer::Timer::new(1, shooting_game::timer::TimerMode::Repeating),
        )
        .unwrap();
    store.create_enemy(0, 0, 100);
    store.create_bullet(0, 0, 500);
    let mut score = 0;
    bullet_enemy_collision(&mut store, &mut score);
    assert_eq!(score, 10);
    assert!(store.find(player).is_some());
}

#[test]
fn collision_of_nothing_scores_nothing() {
    let mut store = EntityStore::new();
    let mut score = 7;
    bullet_enemy_collision(&mut store, &mut score);
    assert_eq!(score, 7);
    store.create_bullet(0, 0, 500);
    bullet_enemy_collision(&mut store, &mut score);
    assert_eq!(score, 7);
    assert_eq!(store.bullets().len(), 1);
}
