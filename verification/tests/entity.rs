use shooting_game::entity::{Body, EntityKind, EntityStore};
use shooting_game::timer::{Timer, TimerMode};

fn cooldown() -> Timer {
    Timer::new(500_000_000, TimerMode::Repeating)
}

#[test]
fn new_store_is_empty() {
    let store = EntityStore::new();
    assert!(store.player().is_none());
    assert!(store.bullets().is_empty());
    assert!(store.enemies().is_empty());
    assert!(store.has_free_id());
}

#[test]
fn identifiers_are_handed_out_in_order() {
    let mut store = EntityStore::new();
    assert_eq!(store.create_bullet(1, 2, 500), 0);
    assert_eq!(store.create_enemy(3, 4, 100), 1);
    assert_eq!(store.create_player(5, 6, 300, cooldown()), Some(2));
    assert_eq!(store.create_bullet(7, 8, 500), 3);
}

#[test]
fn created_entities_hold_their_state() {
    let mut store = EntityStore::new();
    let bullet = store.create_bullet(-5, 10, 500);
    let enemy = store.create_enemy(20, -30, 100);
    assert_eq!(store.bullets().as_slice(), &[Body { id: bullet, x: -5, y: 10, speed: 500 }]);
    assert_eq!(store.enemies().as_slice(), &[Body { id: enemy, x: 20, y: -30, speed: 100 }]);
}

#[test]
fn at_most_one_player_exists() {
    let mut store = EntityStore::new();
    let first = store.create_player(0, -200, 300, cooldown());
    assert_eq!(first, Some(0));
    let second = store.create_player(50, -200, 300, cooldown());
    assert_eq!(second, None);
    let player = store.player().unwrap();
    assert_eq!(player.body(), Body { id: 0, x: 0, y: -200, speed: 300 });
    assert_eq!(player.cooldown(), cooldown());
    // The refused creation used up no identifier.
    assert_eq!(store.create_bullet(0, 0, 1), 1);
}

#[test]
fn destroy_removes_the_entity_with_that_identifier() {
    let mut store = EntityStore::new();
    let a = store.create_bullet(0, 0, 500);
    let b = store.create_bullet(1, 1, 500);
    let c = store.create_enemy(2, 2, 100);
    assert!(store.destroy(a));
    assert_eq!(store.bullets().as_slice(), &[Body { id: b, x: 1, y: 1, speed: 500 }]);
    assert_eq!(store.enemies().as_slice(), &[Body { id: c, x: 2, y: 2, speed: 100 }]);
    assert!(store.destroy(c));
    assert!(store.enemies().is_empty());
}

#[test]
fn destroy_is_idempotent() {
    let mut store = EntityStore::new();
    let a = store.create_bullet(0, 0, 500);
    let b = store.create_enemy(1, 1, 100);
    assert!(store.destroy(a));
    let bullets = store.bullets().clone();
    let enemies = store.enemies().clone();
    assert!(!store.destroy(a));
    assert_eq!(store.bullets(), &bullets);
    assert_eq!(store.enemies(), &enemies);
    assert_eq!(store.find(b), Some(Body { id: b, x: 1, y: 1, speed: 100 }));
}

#[test]
fn destroy_of_an_unknown_identifier_changes_nothing() {
    let mut store = EntityStore::new();
    store.create_bullet(0, 0, 500);
    assert!(!store.destroy(77));
    assert_eq!(store.bullets().len(), 1);
}

#[test]
fn destroy_can_remove_the_player() {
    let mut store = EntityStore::new();
    let id = store.create_player(0, -200, 300, cooldown()).unwrap();
    assert!(store.destroy(id));
    assert!(store.player().is_none());
    assert!(!store.destroy(id));
}

#[test]
fn destroyed_identifiers_are_not_used_again() {
    let mut store = EntityStore::new();
    let a = store.create_bullet(0, 0, 500);
    store.destroy(a);
    let b = store.create_bullet(0, 0, 500);
    assert_ne!(a, b);
    assert_eq!(b, 1);
}

#[test]
fn find_tells_live_from_gone() {
    let mut store = EntityStore::new();
    let player = store.create_player(3, -200, 300, cooldown()).unwrap();
    let bullet = store.create_bullet(4, 5, 500);
    let enemy = store.create_enemy(6, 7, 100);
    assert_eq!(store.find(player), Some(Body { id: player, x: 3, y: -200, speed: 300 }));
    assert_eq!(store.find(bullet), Some(Body { id: bullet, x: 4, y: 5, speed: 500 }));
    assert_eq!(store.find(enemy), Some(Body { id: enemy, x: 6, y: 7, speed: 100 }));
    assert_eq!(store.find(99), None);
    store.destroy(bullet);
    assert_eq!(store.find(bullet), None);
}

#[test]
fn live_lists_one_kind_in_order_of_creation() {
    let mut store = EntityStore::new();
    let e1 = store.create_enemy(1, 0, 100);
    let b1 = store.create_bullet(2, 0, 500);
    let e2 = store.create_enemy(3, 0, 100);
    let p = store.create_player(4, 0, 300, cooldown()).unwrap();
    let enemies: Vec<u64> = store.live(EntityKind::Enemy).iter().map(|b| b.id).collect();
    let bullets: Vec<u64> = store.live(EntityKind::Bullet).iter().map(|b| b.id).collect();
    let players: Vec<u64> = store.live(EntityKind::Player).iter().map(|b| b.id).collect();
    assert_eq!(enemies, vec![e1, e2]);
    assert_eq!(bullets, vec![b1]);
    assert_eq!(players, vec![p]);
}

#[test]
fn live_skips_what_was_destroyed() {
    let mut store = EntityStore::new();
    let e1 = store.create_enemy(1, 0, 100);
    let e2 = store.create_enemy(2, 0, 100);
    let e3 = store.create_enemy(3, 0, 100);
    store.destroy(e2);
    let enemies: Vec<u64> = store.live(EntityKind::Enemy).iter().map(|b| b.id).collect();
    assert_eq!(enemies, vec![e1, e3]);
    assert!(store.live(EntityKind::Player).is_empty());
}
