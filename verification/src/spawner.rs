//! Creation of enemies and bullets.
//!
//! Enemies appear at the cadence of a repeating timer, at a height that is
//! fixed and a place along it that is drawn at random. The player's bullets
//! are spaced by the player's cooldown: a shot needs the fire key held in a
//! frame in which the cooldown finishes, and starts the cooldown again.

use vstd::prelude::*;
use vstd::arithmetic::div_mod::lemma_fundamental_div_mod_converse;
use crate::entity::{EntityStore, Player, PlayerView, StoreView};
use crate::input::Input;
use crate::timer::{lemma_tick_wf, total, Timer, TimerMode, TimerView};
use crate::units::{BULLET_SPEED, ENEMY_LINE, ENEMY_SPEED, MUZZLE_OFFSET, PLAYER_REACH};

verus! {

/// The store and the spawn timer after a frame of `delta` nanoseconds, where
/// `x` is the place drawn for an enemy: the timer has ticked, and if that
/// finished it, one enemy has appeared at `x` on the enemy line.
pub open spec fn enemy_spawned(store: StoreView, timer: TimerView, delta: nat, x: int) -> (
    StoreView,
    TimerView,
) {
    let ticked = timer.tick(delta);
    if ticked.finished {
        (store.with_enemy(x, ENEMY_LINE as int, ENEMY_SPEED as nat), ticked)
    } else {
        (store, ticked)
    }
}

/// The cooldown after a frame of `delta` nanoseconds, and whether a shot was
/// fired: it was if the fire key was held and the tick finished the
/// cooldown, which then starts again.
pub open spec fn trigger_held(cooldown: TimerView, fire: bool, delta: nat) -> (TimerView, bool) {
    let ticked = cooldown.tick(delta);
    if fire && ticked.finished {
        (ticked.reset(), true)
    } else {
        (ticked, false)
    }
}

/// The store after the player's turn to shoot. A bullet appears above the
/// player, where the player is now.
pub open spec fn player_shot(store: StoreView, fire: bool, delta: nat) -> StoreView {
    match store.player {
        Some(p) => {
            let pulled = trigger_held(p.cooldown, fire, delta);
            let armed = StoreView {
                player: Some(PlayerView { cooldown: pulled.0, ..p }),
                ..store
            };
            if pulled.1 {
                armed.with_bullet(p.body.x, p.body.y + MUZZLE_OFFSET, BULLET_SPEED as nat)
            } else {
                armed
            }
        },
        None => store,
    }
}

/// The cooldown after the fire key was held through one frame for each of
/// `deltas`, and the number of shots fired in them.
pub open spec fn held_through(cooldown: TimerView, deltas: Seq<nat>) -> (TimerView, nat)
    decreases deltas.len(),
{
    if deltas.len() == 0 {
        (cooldown, 0)
    } else {
        let before = held_through(cooldown, deltas.drop_last());
        let pulled = trigger_held(before.0, true, deltas.last());
        (pulled.0, before.1 + if pulled.1 { 1nat } else { 0nat })
    }
}

/// `frames` frames of `delta` nanoseconds each.
pub open spec fn even_frames(delta: nat, frames: nat) -> Seq<nat> {
    Seq::new(frames, |i: int| delta)
}

/// Whether a bullet fired by the player has a height that a coordinate can
/// hold.
pub open spec fn muzzle_in_range(store: StoreView) -> bool {
    match store.player {
        Some(p) => p.body.y + MUZZLE_OFFSET <= i64::MAX,
        None => true,
    }
}

/// Draws a number from `low` up to, but not including, `high`. Calls
/// `rand::Rng::gen_range` on the generator of the current thread with the
/// range `low..high`, which panics on an empty range and returns a value
/// within the range otherwise. Which value is left open.
#[verifier::external_body]
fn random_between(low: i64, high: i64) -> (x: i64)
    requires
        low < high,
    ensures
        low <= x < high,
{
    rand::Rng::gen_range(&mut rand::thread_rng(), low..high)
}

/// Ticks the spawn timer and, if that finished it, creates one enemy at `x`
/// on the enemy line.
pub fn spawn_enemies_at(store: &mut EntityStore, timer: &mut Timer, delta: u64, x: i64)
    requires
        old(store).wf(),
        old(timer).wf(),
        old(store)@.next_id < u64::MAX,
    ensures
        (final(store)@, final(timer)@) == enemy_spawned(
            old(store)@,
            old(timer)@,
            delta as nat,
            x as int,
        ),
        final(store).wf(),
        final(timer).wf(),
{
    timer.tick(delta);
    if timer.finished() {
        store.create_enemy(x, ENEMY_LINE, ENEMY_SPEED);
    }
}

/// Ticks the spawn timer and, if that finished it, creates one enemy on the
/// enemy line, at a place drawn at random from the player's reach.
pub fn spawn_enemies(store: &mut EntityStore, timer: &mut Timer, delta: u64)
    requires
        old(store).wf(),
        old(timer).wf(),
        old(store)@.next_id < u64::MAX,
    ensures
        exists|x: int|
            -PLAYER_REACH <= x < PLAYER_REACH && (final(store)@, final(timer)@)
                == #[trigger] enemy_spawned(old(store)@, old(timer)@, delta as nat, x),
        final(store).wf(),
        final(timer).wf(),
{
    timer.tick(delta);
    if timer.finished() {
        let x = random_between(-PLAYER_REACH, PLAYER_REACH);
        store.create_enemy(x, ENEMY_LINE, ENEMY_SPEED);
        assert((store@, timer@) == enemy_spawned(old(store)@, old(timer)@, delta as nat, x as int));
    } else {
        assert((store@, timer@) == enemy_spawned(old(store)@, old(timer)@, delta as nat, 0));
    }
}

/// Ticks the player's cooldown and, if the fire key is held and the tick
/// finished the cooldown, creates a bullet above the player and starts the
/// cooldown again. Without a player nothing happens.
pub fn player_shooting(store: &mut EntityStore, input: Input, delta: u64)
    requires
        old(store).wf(),
        old(store)@.next_id < u64::MAX,
        muzzle_in_range(old(store)@),
    ensures
        final(store)@ == player_shot(old(store)@, input.fire, delta as nat),
        final(store).wf(),
{
    if let Some(p) = store.player {
        let mut cooldown = p.cooldown;
        cooldown.tick(delta);
        let fire = input.fire && cooldown.finished();
        if fire {
            cooldown.reset();
        }
        store.player = Some(Player { cooldown, ..p });
        if fire {
            store.create_bullet(p.body.x, p.body.y + MUZZLE_OFFSET, BULLET_SPEED);
        }
    }
}

/// Holding the fire key keeps the cooldown well formed and leaves it
/// unfinished.
proof fn lemma_trigger_held_wf(cooldown: TimerView, delta: nat)
    requires
        cooldown.wf(),
    ensures
        trigger_held(cooldown, true, delta).0.wf(),
        !trigger_held(cooldown, true, delta).0.finished,
        trigger_held(cooldown, true, delta).0.duration == cooldown.duration,
        trigger_held(cooldown, true, delta).0.mode == cooldown.mode,
{
    lemma_tick_wf(cooldown, delta);
}

/// Every shot takes a full cooldown. However the frames fall, the shots
/// fired while the key is held, times the cooldown, are covered by the time
/// that has passed: no more than the whole number of cooldowns in that time
/// are fired.
pub proof fn lemma_shots_take_a_cooldown_each(cooldown: TimerView, deltas: Seq<nat>)
    requires
        cooldown.wf(),
        cooldown.mode == TimerMode::Repeating,
        cooldown.duration > 0,
    ensures
        held_through(cooldown, deltas).1 * cooldown.duration + held_through(
            cooldown,
            deltas,
        ).0.elapsed <= cooldown.elapsed + total(deltas),
        held_through(cooldown, deltas).0.wf(),
        held_through(cooldown, deltas).0.duration == cooldown.duration,
        held_through(cooldown, deltas).0.mode == cooldown.mode,
    decreases deltas.len(),
{
    if deltas.len() > 0 {
        let before = held_through(cooldown, deltas.drop_last());
        lemma_shots_take_a_cooldown_each(cooldown, deltas.drop_last());
        lemma_trigger_held_wf(before.0, deltas.last());
        let d = cooldown.duration as int;
        let shots = before.1 as int;
        assert((shots + 1) * d == shots * d + d) by (nonlinear_arith);
        let held = held_through(cooldown, deltas);
        let pulled = trigger_held(before.0, true, deltas.last());
        assert(held.0 == pulled.0);
        assert(total(deltas) == total(deltas.drop_last()) + deltas.last());
        if before.0.elapsed + deltas.last() < d {
            assert(held.1 * d == shots * d);
            assert(held.0.elapsed == before.0.elapsed + deltas.last());
        } else {
            assert(held.1 * d == (shots + 1) * d);
            assert(held.0.elapsed == 0);
        }
    } else {
        assert(held_through(cooldown, deltas).1 * cooldown.duration == 0) by (nonlinear_arith)
            requires
                held_through(cooldown, deltas).1 == 0,
        ;
    }
}

/// The steady rate of fire. Where the cooldown is a whole number of frames
/// long, holding the key from a fresh cooldown on fires one shot per
/// cooldown: after any number of frames, as many shots as whole cooldowns
/// have passed.
pub proof fn lemma_steady_fire_rate(delta: nat, frames_per_shot: nat, frames: nat)
    requires
        delta > 0,
        frames_per_shot > 0,
    ensures
        ({
            let duration = frames_per_shot * delta;
            let deltas = even_frames(delta, frames);
            let held = held_through(TimerView::fresh(duration, TimerMode::Repeating), deltas);
            &&& total(deltas) == frames * delta
            &&& held.1 == total(deltas) / duration
            &&& held.0.elapsed == total(deltas) % duration
        }),
    decreases frames,
{
    let k = frames_per_shot as int;
    let duration = frames_per_shot * delta;
    let start = TimerView::fresh(duration, TimerMode::Repeating);
    let deltas = even_frames(delta, frames);
    assert(duration > 0) by (nonlinear_arith)
        requires
            duration == frames_per_shot * delta,
            delta > 0,
            frames_per_shot > 0,
    ;
    if frames == 0 {
        lemma_fundamental_div_mod_converse(0, duration as int, 0, 0);
    } else {
        let n = (frames - 1) as nat;
        let front = even_frames(delta, n);
        assert(deltas.drop_last() =~= front);
        assert(deltas.last() == delta);
        lemma_steady_fire_rate(delta, frames_per_shot, n);
        lemma_shots_take_a_cooldown_each(start, front);
        let before = held_through(start, front);
        lemma_trigger_held_wf(before.0, delta);
        let q = (n * delta) as int / (duration as int);
        let r = (n * delta) as int % (duration as int);
        vstd::arithmetic::div_mod::lemma_fundamental_div_mod((n * delta) as int, duration as int);
        assert(0 <= r < duration) by {
            vstd::arithmetic::div_mod::lemma_mod_pos_bound((n * delta) as int, duration as int);
        }
        assert(frames * delta == n * delta + delta) by (nonlinear_arith)
            requires
                frames == n + 1,
        ;
        assert(duration as int * q == q * duration as int) by (nonlinear_arith);
        if r + delta < duration {
            lemma_fundamental_div_mod_converse(
                (frames * delta) as int,
                duration as int,
                q,
                r + delta,
            );
        } else {
            // A whole number of frames makes a cooldown, so the sum cannot
            // pass the cooldown without landing on it.
            assert(r + delta == duration) by {
                lemma_whole_frames(n as int, delta as int, k, q, r);
            }
            assert((q + 1) * duration as int + 0 == frames * delta) by (nonlinear_arith)
                requires
                    frames * delta == n * delta + delta,
                    n * delta == duration as int * q + r,
                    r + delta == duration,
            ;
            lemma_fundamental_div_mod_converse(
                (frames * delta) as int,
                duration as int,
                q + 1,
                0,
            );
        }
    }
}

/// Where `n` frames leave `r` over `q` cooldowns of `k` frames each, `r` is
/// a whole number of frames short of a cooldown.
proof fn lemma_whole_frames(n: int, delta: int, k: int, q: int, r: int)
    requires
        n >= 0,
        delta > 0,
        k > 0,
        0 <= r < k * delta,
        n * delta == (k * delta) * q + r,
        r + delta >= k * delta,
    ensures
        r + delta == k * delta,
{
    // r = (n - k * q) * delta is a multiple of delta below k * delta.
    let m = n - k * q;
    assert(r == m * delta) by (nonlinear_arith)
        requires
            n * delta == (k * delta) * q + r,
            m == n - k * q,
    ;
    assert(m < k) by (nonlinear_arith)
        requires
            m * delta < k * delta,
            delta > 0,
    ;
    assert(m + 1 >= k) by (nonlinear_arith)
        requires
            m * delta + delta >= k * delta,
            delta > 0,
    ;
    assert((k - 1) * delta + delta == k * delta) by (nonlinear_arith);
}

} // verus!
