//! A session of the game: the entities, the score, the spawn timer and the
//! state, and the frame that advances them.
//!
//! A frame moves everything, removes what has left the playfield, lets the
//! spawn timer and the player create what is due, and resolves the
//! collisions, in that order. Once the game is over a frame changes nothing.

use vstd::prelude::*;
use crate::collision::{after_collisions, bullet_enemy_collision, collided};
use crate::entity::{EntityStore, StoreView};
use crate::hud::{game_over_caption, game_over_text, Caption, CAPTION_LEFT, CAPTION_TOP};
use crate::input::Input;
use crate::movement::{
    bullet_movement, bullet_step, bullets_moved, confine_player_movement, enemies_moved,
    enemy_movement, lemma_filter_map_len, player_kept_in_reach, player_moved, player_movement,
};
use crate::spawner::{
    enemy_spawned, muzzle_in_range, player_shooting, player_shot, spawn_enemies, spawn_enemies_at,
};
use crate::timer::{Timer, TimerMode, TimerView};
use crate::units::{
    FIRE_COOLDOWN, HIT_SCORE, PLAYER_LINE, PLAYER_REACH, PLAYER_SPEED, SPAWN_PERIOD,
};

verus! {

/// Whether the game is running.
#[derive(Clone, Copy, Debug, PartialEq, Eq, Structural)]
pub enum GameState {
    Playing,
    /// The game has ended. Nothing leads back from here.
    GameOver,
}

/// What one frame is given: the keys held, the time since the last frame in
/// nanoseconds, and the place drawn for an enemy that may appear.
pub struct FrameInput {
    pub input: Input,
    pub delta: nat,
    pub spawn_x: int,
}

/// A session as contracts see it.
pub struct GameView {
    pub state: GameState,
    pub store: StoreView,
    pub score: nat,
    pub spawn_timer: TimerView,
}

impl GameView {
    /// A session that starts around the entities of `store`: playing, without
    /// a score, and a full period away from the first enemy.
    pub open spec fn around(store: StoreView) -> GameView {
        GameView {
            state: GameState::Playing,
            store,
            score: 0,
            spawn_timer: TimerView::fresh(SPAWN_PERIOD as nat, TimerMode::Repeating),
        }
    }

    /// The session at the start of a game: the player alone, in the middle of
    /// its line, with a cooldown that has not run yet.
    pub open spec fn start() -> GameView {
        GameView::around(
            StoreView::empty().with_player(
                0,
                PLAYER_LINE as int,
                PLAYER_SPEED as nat,
                TimerView::fresh(FIRE_COOLDOWN as nat, TimerMode::Repeating),
            ),
        )
    }

    pub open spec fn wf(self) -> bool {
        &&& self.store.wf()
        &&& self.spawn_timer.wf()
        &&& muzzle_in_range(self.store)
    }

    /// Whether the counters have room for one more frame: two identifiers,
    /// and the score of a hit by every bullet.
    pub open spec fn has_room(self) -> bool {
        &&& self.store.next_id + 2 <= u64::MAX
        &&& self.score + HIT_SCORE * (self.store.bullets.len() + 1) <= u64::MAX
    }

    /// The entities after the movement of one frame.
    pub open spec fn moved(self, input: Input, delta: nat) -> StoreView {
        enemies_moved(
            bullets_moved(player_kept_in_reach(player_moved(self.store, input, delta)), delta),
            delta,
        )
    }

    /// The session after one frame. While the game is running the frame
    /// moves, spawns and resolves the collisions; the score grows by the
    /// score of a hit for each of them. When the game is over the frame
    /// changes nothing.
    pub open spec fn frame(self, input: Input, delta: nat, spawn_x: int) -> GameView {
        if self.state == GameState::Playing {
            let spawned = enemy_spawned(self.moved(input, delta), self.spawn_timer, delta, spawn_x);
            let shot = player_shot(spawned.0, input.fire, delta);
            GameView {
                state: GameState::Playing,
                store: after_collisions(shot),
                score: self.score + HIT_SCORE as nat * collided(shot.bullets, shot.enemies).hits,
                spawn_timer: spawned.1,
            }
        } else {
            self
        }
    }

    /// The session after one frame for each of `inputs`, in order.
    pub open spec fn frames(self, inputs: Seq<FrameInput>) -> GameView
        decreases inputs.len(),
    {
        if inputs.len() == 0 {
            self
        } else {
            let given = inputs.last();
            self.frames(inputs.drop_last()).frame(given.input, given.delta, given.spawn_x)
        }
    }

    /// The session with the game over, and all else as it is.
    pub open spec fn ended(self) -> GameView {
        GameView { state: GameState::GameOver, ..self }
    }
}

/// A session of the game.
#[derive(Debug)]
pub struct Game {
    state: GameState,
    store: EntityStore,
    score: u64,
    spawn_timer: Timer,
}

impl View for Game {
    type V = GameView;

    closed spec fn view(&self) -> GameView {
        GameView {
            state: self.state,
            store: self.store@,
            score: self.score as nat,
            spawn_timer: self.spawn_timer@,
        }
    }
}

impl Game {
    pub open spec fn wf(&self) -> bool {
        self@.wf()
    }

    /// Sets up a game: the player in the middle of its line, no bullets, no
    /// enemies, no score.
    pub fn new() -> (game: Game)
        ensures
            game@ == GameView::start(),
            game.wf(),
    {
        let mut store = EntityStore::new();
        let cooldown = Timer::new(FIRE_COOLDOWN, TimerMode::Repeating);
        store.create_player(0, PLAYER_LINE, PLAYER_SPEED, cooldown);
        Game::around(store)
    }

    /// Starts a session around entities that are already there.
    pub fn around(store: EntityStore) -> (game: Game)
        requires
            store.wf(),
            muzzle_in_range(store@),
        ensures
            game@ == GameView::around(store@),
            game.wf(),
    {
        Game {
            state: GameState::Playing,
            store,
            score: 0,
            spawn_timer: Timer::new(SPAWN_PERIOD, TimerMode::Repeating),
        }
    }

    /// Whether the counters have room for one more frame.
    pub fn can_step(&self) -> (room: bool)
        ensures
            room == self@.has_room(),
    {
        let bullets = self.store.bullets().len();
        assert(bullets == self@.store.bullets.len());
        if self.store.next_id > u64::MAX - 2 {
            return false;
        }
        if bullets as u128 >= u64::MAX as u128 {
            assert(HIT_SCORE * (bullets + 1) > u64::MAX) by (nonlinear_arith)
                requires
                    bullets >= u64::MAX,
            ;
            return false;
        }
        let needed: u128 = (HIT_SCORE as u128) * (bullets as u128 + 1);
        self.score as u128 + needed <= u64::MAX as u128
    }

    /// Runs one frame, with `spawn_x` as the place of an enemy that appears
    /// in it.
    pub fn step_with(&mut self, input: Input, delta: u64, spawn_x: i64)
        requires
            old(self).wf(),
            old(self)@.has_room(),
        ensures
            final(self)@ == old(self)@.frame(input, delta as nat, spawn_x as int),
            final(self).wf(),
    {
        self.run_frame(input, delta, Some(spawn_x));
    }

    /// Runs one frame. An enemy that appears in it does so at a place drawn
    /// at random from the player's reach.
    pub fn step(&mut self, input: Input, delta: u64)
        requires
            old(self).wf(),
            old(self)@.has_room(),
        ensures
            exists|x: int|
                -PLAYER_REACH <= x < PLAYER_REACH && final(self)@ == #[trigger] old(self)@.frame(
                    input,
                    delta as nat,
                    x,
                ),
            old(self)@.state == GameState::GameOver ==> final(self)@ == old(self)@,
            final(self)@.state == old(self)@.state,
            final(self)@.score >= old(self)@.score,
            final(self).wf(),
    {
        self.run_frame(input, delta, None);
    }

    /// One frame, with the place of a new enemy either given or drawn.
    fn run_frame(&mut self, input: Input, delta: u64, spawn_x: Option<i64>)
        requires
            old(self).wf(),
            old(self)@.has_room(),
        ensures
            final(self).wf(),
            exists|x: int|
                {
                    &&& final(self)@ == #[trigger] old(self)@.frame(input, delta as nat, x)
                    &&& match spawn_x {
                        Some(given) => x == given,
                        None => -PLAYER_REACH <= x < PLAYER_REACH,
                    }
                },
    {
        let ghost before = self@;
        if self.state != GameState::Playing {
            proof {
                let x: int = match spawn_x {
                    Some(given) => given as int,
                    None => 0,
                };
                assert(self@ == before.frame(input, delta as nat, x));
            }
            return;
        }
        player_movement(&mut self.store, input, delta);
        confine_player_movement(&mut self.store);
        bullet_movement(&mut self.store, delta);
        enemy_movement(&mut self.store, delta);
        assert(self.store@ == before.moved(input, delta as nat));
        proof {
            lemma_filter_map_len(before.store.bullets, bullet_step(delta as nat));
        }
        let ghost moved = self.store@;
        match spawn_x {
            Some(given) => {
                spawn_enemies_at(&mut self.store, &mut self.spawn_timer, delta, given);
            },
            None => {
                spawn_enemies(&mut self.store, &mut self.spawn_timer, delta);
            },
        }
        let ghost x: int = match spawn_x {
            Some(given) => given as int,
            None => choose|x: int|
                -PLAYER_REACH <= x < PLAYER_REACH && (self.store@, self.spawn_timer@)
                    == #[trigger] enemy_spawned(moved, before.spawn_timer, delta as nat, x),
        };
        assert((self.store@, self.spawn_timer@) == enemy_spawned(
            moved,
            before.spawn_timer,
            delta as nat,
            x,
        ));
        player_shooting(&mut self.store, input, delta);
        proof {
            assert(HIT_SCORE * self.store@.bullets.len() <= HIT_SCORE * (before.store.bullets.len()
                + 1)) by (nonlinear_arith)
                requires
                    self.store@.bullets.len() <= before.store.bullets.len() + 1,
            ;
        }
        bullet_enemy_collision(&mut self.store, &mut self.score);
        assert(self@ == before.frame(input, delta as nat, x));
    }

    /// Ends the game. The first call returns the caption to show; later
    /// calls return nothing and change nothing.
    pub fn game_over(&mut self) -> (caption: Option<Caption>)
        requires
            old(self).wf(),
        ensures
            final(self)@ == old(self)@.ended(),
            final(self).wf(),
            caption is Some <==> old(self)@.state == GameState::Playing,
            caption is Some ==> {
                &&& caption->Some_0.text@ == game_over_text()
                &&& caption->Some_0.left == CAPTION_LEFT
                &&& caption->Some_0.top == CAPTION_TOP
            },
    {
        if self.state == GameState::Playing {
            self.state = GameState::GameOver;
            Some(game_over_caption())
        } else {
            None
        }
    }

    pub fn state(&self) -> (state: GameState)
        ensures
            state == self@.state,
    {
        self.state
    }

    pub fn score(&self) -> (score: u64)
        ensures
            score == self@.score,
    {
        self.score
    }

    /// The entities of the session.
    pub fn store(&self) -> (store: &EntityStore)
        ensures
            store@ == self@.store,
    {
        &self.store
    }

    pub fn spawn_timer(&self) -> (timer: Timer)
        ensures
            timer@ == self@.spawn_timer,
    {
        self.spawn_timer
    }
}

/// Once the game is over, frames produce nothing and the score stays: the
/// session after any frames is the session as it was.
pub proof fn lemma_game_over_freezes(game: GameView, inputs: Seq<FrameInput>)
    requires
        game.state == GameState::GameOver,
    ensures
        game.frames(inputs) == game,
    decreases inputs.len(),
{
    if inputs.len() > 0 {
        lemma_game_over_freezes(game, inputs.drop_last());
    }
}

/// The score never decreases, and a frame adds the score of a hit for each
/// pair of a bullet and an enemy that it removes.
pub proof fn lemma_score_never_decreases(game: GameView, inputs: Seq<FrameInput>)
    ensures
        game.frames(inputs).score >= game.score,
        game.frames(inputs).state == game.state,
    decreases inputs.len(),
{
    if inputs.len() > 0 {
        lemma_score_never_decreases(game, inputs.drop_last());
        let before = game.frames(inputs.drop_last());
        let given = inputs.last();
        if before.state == GameState::Playing {
            let spawned = enemy_spawned(
                before.moved(given.input, given.delta),
                before.spawn_timer,
                given.delta,
                given.spawn_x,
            );
            let shot = player_shot(spawned.0, given.input.fire, given.delta);
            assert(HIT_SCORE * collided(shot.bullets, shot.enemies).hits >= 0) by (nonlinear_arith);
        }
    }
}

/// Whatever the keys, the frame time and the player's speed, a frame of a
/// running game leaves the player within its reach.
pub proof fn lemma_frame_keeps_player_in_reach(game: GameView, input: Input, delta: nat, spawn_x: int)
    requires
        game.state == GameState::Playing,
    ensures
        game.frame(input, delta, spawn_x).store.player is Some <==> game.store.player is Some,
        game.store.player is Some ==> {
            let x = game.frame(input, delta, spawn_x).store.player->Some_0.body.x;
            -PLAYER_REACH <= x <= PLAYER_REACH
        },
{
}

} // verus!
