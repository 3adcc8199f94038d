use shooting_game::entity::{Body, EntityStore};
use shooting_game::game::{Game, GameState};
use shooting_game::hud::{game_over_caption, score_text, CAPTION_LEFT, CAPTION_TOP};
use shooting_game::input::Input;
use shooting_game::timer::{Timer, TimerMode};
use shooting_game::units::{
    ENEMY_LINE, FIRE_COOLDOWN, PLAYER_LINE, PLAYER_REACH, PLAYER_SPEED, SPAWN_PERIOD, UNIT,
};

const FRAME: u64 = 100_000_000;

fn held(left: bool, right: bool, fire: bool) -> Input {
    Input { left, right, fire }
}

fn player_store() -> EntityStore {
    let mut store = EntityStore::new();
    store.create_player(0, PLAYER_LINE, PLAYER_SPEED, Timer::new(FIRE_COOLDOWN, TimerMode::Repeating));
    store
}

#[test]
fn new_game_has_the_player_alone() {
    let game = Game::new();
    assert_eq!(game.state(), GameState::Playing);
    assert_eq!(game.score(), 0);
    let player = game.store().player().unwrap();
    assert_eq!(player.body(), Body { id: 0, x: 0, y: -200 * UNIT, speed: 300 });
    assert_eq!(player.cooldown(), Timer::new(500_000_000, TimerMode::Repeating));
    assert!(game.store().bullets().is_empty());
    assert!(game.store().enemies().is_empty());
    assert_eq!(game.spawn_timer(), Timer::new(1_000_000_000, TimerMode::Repeating));
    assert!(game.can_step());
}

#[test]
fn idle_input_holds_nothing() {
    assert_eq!(Input::idle(), held(false, false, false));
}

#[test]
fn enemy_descends_to_the_middle_in_three_seconds() {
    let mut store = player_store();
    let enemy = store.create_enemy(0, 300 * UNIT, 100);
    let mut game = Game::around(store);
    for _ in 0..30 {
        assert!(game.can_step());
        game.step(Input::idle(), FRAME);
    }
    assert_eq!(game.store().find(enemy), Some(Body { id: enemy, x: 0, y: 0, speed: 100 }));
    assert_eq!(game.score(), 0);
}

#[test]
fn enemy_leaves_below_the_floor_after_six_seconds() {
    let mut store = EntityStore::new();
    let enemy = store.create_enemy(0, 300 * UNIT, 100);
    let mut game = Game::around(store);
    for _ in 0..60 {
        game.step(Input::idle(), FRAME);
    }
    assert_eq!(game.store().find(enemy), Some(Body { id: enemy, x: 0, y: -300 * UNIT, speed: 100 }));
    game.step(Input::idle(), FRAME);
    assert_eq!(game.store().find(enemy), None);
}

#[test]
fn holding_fire_for_one_second_spawns_two_bullets() {
    let mut game = Game::new();
    for _ in 0..10 {
        game.step(held(false, false, true), FRAME);
    }
    let bullets = game.store().bullets();
    assert_eq!(bullets.len(), 2);
    // Fired after 0.5 s and after 1.0 s; the first has risen for 0.5 s.
    assert_eq!(bullets[0].y, (-170 + 250) * UNIT);
    assert_eq!(bullets[1].y, -170 * UNIT);
    assert_eq!(bullets[0].x, 0);
}

#[test]
fn bullet_and_enemy_in_the_same_frame_collide() {
    let mut store = EntityStore::new();
    let bullet = store.create_bullet(0, 100 * UNIT, 500);
    let enemy = store.create_enemy(0, 105 * UNIT, 100);
    let mut game = Game::around(store);
    game.step_with(Input::idle(), 0, 0);
    assert_eq!(game.score(), 10);
    assert_eq!(game.store().find(bullet), None);
    assert_eq!(game.store().find(enemy), None);
}

#[test]
fn frame_moves_before_it_collides() {
    let mut store = EntityStore::new();
    // 60 apart; after 0.1 s the bullet is 50 up and the enemy 10 down.
    let bullet = store.create_bullet(0, 0, 500);
    let enemy = store.create_enemy(0, 79 * UNIT, 100);
    let mut game = Game::around(store);
    game.step_with(Input::idle(), FRAME, 0);
    assert_eq!(game.score(), 10);
    assert_eq!(game.store().find(bullet), None);
    assert_eq!(game.store().find(enemy), None);
}

#[test]
fn frame_spawns_before_it_collides() {
    let mut store = EntityStore::new();
    // After one second the bullet is just below the line where the enemy appears.
    let bullet = store.create_bullet(5 * UNIT, -210 * UNIT, 500);
    let mut game = Game::around(store);
    game.step_with(Input::idle(), SPAWN_PERIOD, 5 * UNIT);
    assert_eq!(game.score(), 10);
    assert_eq!(game.store().find(bullet), None);
    assert!(game.store().enemies().is_empty());
}

#[test]
fn frame_places_the_new_enemy_where_it_is_told() {
    let mut game = Game::new();
    game.step_with(Input::idle(), SPAWN_PERIOD, -123 * UNIT);
    assert_eq!(
        game.store().enemies().as_slice(),
        &[Body { id: 1, x: -123 * UNIT, y: ENEMY_LINE, speed: 100 }]
    );
}

#[test]
fn frame_creates_the_enemy_before_the_bullet() {
    let mut game = Game::new();
    game.step_with(held(false, false, true), SPAWN_PERIOD, 300 * UNIT);
    assert_eq!(game.store().enemies()[0].id, 1);
    assert_eq!(game.store().bullets()[0].id, 2);
}

#[test]
fn frame_fires_from_where_the_player_has_moved_to() {
    let mut game = Game::new();
    game.step_with(held(false, true, true), FIRE_COOLDOWN, 0);
    assert_eq!(game.store().player().unwrap().body().x, 150 * UNIT);
    assert_eq!(game.store().bullets()[0].x, 150 * UNIT);
    assert_eq!(game.store().bullets()[0].y, -170 * UNIT);
}

#[test]
fn frame_keeps_the_player_within_reach() {
    let mut game = Game::new();
    for _ in 0..40 {
        game.step(held(false, true, false), FRAME);
        let x = game.store().player().unwrap().body().x;
        assert!(-PLAYER_REACH <= x && x <= PLAYER_REACH);
    }
    assert_eq!(game.store().player().unwrap().body().x, 350 * UNIT);
    game.step(held(true, false, false), u64::MAX);
    assert_eq!(game.store().player().unwrap().body().x, -350 * UNIT);
}

#[test]
fn random_enemies_of_a_game_appear_within_reach() {
    let mut game = Game::around(EntityStore::new());
    for _ in 0..5 {
        game.step(Input::idle(), SPAWN_PERIOD);
    }
    assert_eq!(game.store().enemies().len(), 5);
    for enemy in game.store().enemies().iter() {
        assert!(-PLAYER_REACH <= enemy.x && enemy.x < PLAYER_REACH);
    }
}

#[test]
fn game_without_a_player_runs() {
    let mut game = Game::around(EntityStore::new());
    game.step(held(true, false, true), 2 * SPAWN_PERIOD);
    assert!(game.store().player().is_none());
    assert!(game.store().bullets().is_empty());
    assert_eq!(game.store().enemies().len(), 1);
}

#[test]
fn score_adds_up_and_never_decreases() {
    let mut store = EntityStore::new();
    store.create_bullet(0, 0, 500);
    store.create_enemy(0, 55 * UNIT, 100);
    store.create_bullet(100 * UNIT, -100 * UNIT, 500);
    store.create_enemy(100 * UNIT, 80 * UNIT, 100);
    let mut game = Game::around(store);
    let mut last = 0;
    let mut scores = Vec::new();
    for _ in 0..4 {
        game.step_with(Input::idle(), FRAME, 300 * UNIT);
        assert!(game.score() >= last);
        last = game.score();
        scores.push(last);
    }
    assert_eq!(scores, vec![10, 10, 20, 20]);
}

#[test]
fn game_over_freezes_the_game() {
    let mut store = player_store();
    store.create_bullet(0, 0, 500);
    store.create_enemy(0, 200 * UNIT, 100);
    let mut game = Game::around(store);
    game.step_with(held(false, true, false), FRAME, 0);
    let caption = game.game_over();
    assert!(caption.is_some());
    assert_eq!(game.state(), GameState::GameOver);
    let player = game.store().player();
    let bullets = game.store().bullets().clone();
    let enemies = game.store().enemies().clone();
    let score = game.score();
    let timer = game.spawn_timer();
    for _ in 0..50 {
        game.step(held(true, false, true), FRAME);
    }
    game.step_with(held(true, false, true), 10 * SPAWN_PERIOD, 0);
    assert_eq!(game.state(), GameState::GameOver);
    assert_eq!(game.store().player(), player);
    assert_eq!(game.store().bullets(), &bullets);
    assert_eq!(game.store().enemies(), &enemies);
    assert_eq!(game.score(), score);
    assert_eq!(game.spawn_timer(), timer);
}

#[test]
fn game_over_shows_its_caption_once() {
    let mut game = Game::new();
    let caption = game.game_over().unwrap();
    assert_eq!(caption.text, "Game Over!");
    assert_eq!(caption.left, 300);
    assert_eq!(caption.top, 250);
    assert!(game.game_over().is_none());
    assert_eq!(game.state(), GameState::GameOver);
}

#[test]
fn game_over_keeps_the_entities_and_the_score() {
    let mut store = EntityStore::new();
    store.create_bullet(0, 100 * UNIT, 500);
    store.create_enemy(0, 105 * UNIT, 100);
    let survivor = store.create_enemy(200 * UNIT, 0, 100);
    let mut game = Game::around(store);
    game.step_with(Input::idle(), 0, 0);
    game.game_over();
    assert_eq!(game.score(), 10);
    assert_eq!(game.store().enemies().len(), 1);
    assert_eq!(game.store().enemies()[0].id, survivor);
}

#[test]
fn caption_stands_at_its_place() {
    let caption = game_over_caption();
    assert_eq!(caption.text, "Game Over!");
    assert_eq!((caption.left, caption.top), (CAPTION_LEFT, CAPTION_TOP));
    assert_eq!((CAPTION_LEFT, CAPTION_TOP), (300, 250));
}

#[test]
fn score_text_shows_the_score_in_decimal() {
    assert_eq!(score_text(0), "Score: 0");
    assert_eq!(score_text(7), "Score: 7");
    assert_eq!(score_text(10), "Score: 10");
    assert_eq!(score_text(1230), "Score: 1230");
    assert_eq!(score_text(1_000_000), "Score: 1000000");
    assert_eq!(score_text(u64::MAX), "Score: 18446744073709551615");
}

#[test]
fn score_text_follows_the_game() {
    let mut store = EntityStore::new();
    store.create_bullet(0, 100 * UNIT, 500);
    store.create_enemy(0, 105 * UNIT, 100);
    let mut game = Game::around(store);
    assert_eq!(score_text(game.score()), "Score: 0");
    game.step_with(Input::idle(), 0, 0);
    assert_eq!(score_text(game.score()), "Score: 10");
}
